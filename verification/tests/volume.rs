use litematic_editor::{Vector3, Volume};

#[test]
fn test_new() {
    assert_eq!(
        Volume::new(Vector3::new(0, 0, 0), Vector3::new(1, 1, 1)),
        Volume {
            pos1: Vector3::new(0, 0, 0),
            pos2: Vector3::new(1, 1, 1)
        }
    );

    assert_eq!(
        Volume::new(Vector3::new(1, 1, 1), Vector3::new(1, 1, 1)),
        Volume {
            pos1: Vector3::new(1, 1, 1),
            pos2: Vector3::new(2, 2, 2)
        }
    );

    assert_eq!(
        Volume::new(Vector3::new(1, 1, 1), Vector3::new(-1, -1, -1)),
        Volume {
            pos1: Vector3::new(1, 1, 1),
            pos2: Vector3::new(0, 0, 0)
        }
    );
}

#[test]
fn test_expand_to_fit() {
    assert_eq!(
        Volume::default().expand_to_fit(Vector3::new(1, 1, 1)),
        Volume::new(Vector3::new(0, 0, 0), Vector3::new(2, 2, 2))
    );

    assert_eq!(
        Volume::default().expand_to_fit(Vector3::new(-1, -1, -1)),
        Volume::new(Vector3::new(0, 0, 0), Vector3::new(-1, -1, -1))
    );

    assert_eq!(
        Volume::new(Vector3::new(1, 1, 1), Vector3::new(2, 2, 2))
            .expand_to_fit(Vector3::new(0, 0, 0)),
        Volume::new(Vector3::new(0, 0, 0), Vector3::new(3, 3, 3))
    );

    assert_eq!(
        Volume::new(Vector3::new(1, 1, 1), Vector3::new(2, -2, 2))
            .expand_to_fit(Vector3::new(0, 0, 0)),
        Volume::new(Vector3::new(0, 1, 0), Vector3::new(3, -2, 3))
    );
}

#[test]
fn test_make_size_positive() {
    assert_eq!(
        Volume::new(Vector3::new(1, 1, 1), Vector3::new(1, -1, 1)).make_size_positive(),
        Volume::new(Vector3::new(1, 0, 1), Vector3::new(1, 1, 1))
    );

    assert_eq!(
        Volume::new(Vector3::new(1, 1, 1), Vector3::new(1, 1, 1)).make_size_positive(),
        Volume::new(Vector3::new(1, 1, 1), Vector3::new(1, 1, 1))
    );
}

#[test]
fn test_iter() {
    let mut iter = Volume::new(Vector3::new(1, 1, 1), Vector3::new(2, 2, 2)).iter();

    assert_eq!(iter.next(), Some(Vector3::new(1, 1, 1)));
    assert_eq!(iter.next(), Some(Vector3::new(2, 1, 1)));
    assert_eq!(iter.next(), Some(Vector3::new(1, 1, 2)));
    assert_eq!(iter.next(), Some(Vector3::new(2, 1, 2)));
    assert_eq!(iter.next(), Some(Vector3::new(1, 2, 1)));
    assert_eq!(iter.next(), Some(Vector3::new(2, 2, 1)));
    assert_eq!(iter.next(), Some(Vector3::new(1, 2, 2)));
    assert_eq!(iter.next(), Some(Vector3::new(2, 2, 2)));
    assert_eq!(iter.next(), None);
}

#[test]
fn volume_normalization_of_negative_sizes() {
    let volume = Volume::new(Vector3::new(2, 3, 4), Vector3::new(-2, 5, -7));
    assert_eq!(
        volume.make_size_positive(),
        Volume::new(Vector3::new(0, 3, -3), Vector3::new(2, 5, 7))
    );
}

#[test]
fn volume_origin_size_and_count() {
    let volume = Volume::new(Vector3::new(1, 2, 3), Vector3::new(1, -2, 5));
    assert_eq!(volume.origin(), Vector3::new(1, 2, 3));
    assert_eq!(volume.size(), Vector3::new(1, -2, 5));
    assert_eq!(volume.volume(), 10);
    assert_eq!(
        Volume::new(Vector3::new(2, 5, 4), Vector3::new(-2, 5, -9)).size(),
        Vector3::new(-2, 5, -9)
    );
    assert_eq!(
        Volume::new(Vector3::new(2, 3, 4), Vector3::new(3, 4, 5)).volume(),
        60
    );
    assert_eq!(Volume::default().volume(), 0);
}

#[test]
fn volume_move_to_and_change_size() {
    let volume = Volume::new(Vector3::new(1, 2, 3), Vector3::new(4, 5, 6));

    let moved = volume.move_to(Vector3::new(0, 0, 0));
    assert_eq!(moved.origin(), Vector3::new(0, 0, 0));
    assert_eq!(moved.size(), Vector3::new(4, 5, 6));

    let resized = volume.change_size(Vector3::new(7, 8, 9));
    assert_eq!(resized.origin(), Vector3::new(1, 2, 3));
    assert_eq!(resized.size(), Vector3::new(7, 8, 9));
}

#[test]
fn volume_expand_to_fit_documented_value() {
    let volume = Volume::new(Vector3::new(0, -1, 0), Vector3::new(1, 2, 1));
    let vec = Vector3::new(2, -2, 1);
    assert_eq!(
        volume.expand_to_fit(vec),
        Volume::new(Vector3::new(0, -2, 0), Vector3::new(3, 3, 2))
    );
}

#[test]
fn volume_expand_to_fit_keeps_a_block_that_is_inside() {
    let volume = Volume::new(Vector3::new(0, 0, 0), Vector3::new(4, 4, 4));
    assert_eq!(volume.expand_to_fit(Vector3::new(3, 0, 2)), volume);
    let negative = Volume::new(Vector3::new(4, 4, 4), Vector3::new(-4, -4, -4));
    assert_eq!(negative.expand_to_fit(Vector3::new(3, 0, 2)), negative);
}

#[test]
fn volume_expand_to_fit_volume_documented_value() {
    let volume1 = Volume::new(Vector3::new(0, 0, 0), Vector3::new(1, 1, 2));
    let volume2 = Volume::new(Vector3::new(0, -1, 0), Vector3::new(1, 2, 1));
    assert_eq!(
        volume1.expand_to_fit_volume(volume2),
        Volume::new(Vector3::new(0, -1, 0), Vector3::new(1, 2, 2))
    );
}

#[test]
fn volume_iter_walks_a_negative_size_from_its_lowest_corner() {
    let mut iter = Volume::new(Vector3::new(1, 0, 0), Vector3::new(-2, 1, 1)).iter();
    assert_eq!(iter.next(), Some(Vector3::new(-1, 0, 0)));
    assert_eq!(iter.next(), Some(Vector3::new(0, 0, 0)));
    assert_eq!(iter.next(), None);
    assert_eq!(iter.next(), None);
}

#[test]
fn volume_iter_of_an_empty_box_gives_nothing() {
    let mut iter = Volume::default().iter();
    assert_eq!(iter.next(), None);
}

#[test]
fn volume_iter_starts_anew_with_each_call() {
    let volume = Volume::new(Vector3::new(0, 0, 0), Vector3::new(2, 1, 1));
    let mut first = volume.iter();
    assert_eq!(first.next(), Some(Vector3::new(0, 0, 0)));
    let mut second = volume.iter();
    assert_eq!(second.next(), Some(Vector3::new(0, 0, 0)));
    assert_eq!(first.next(), Some(Vector3::new(1, 0, 0)));
}
