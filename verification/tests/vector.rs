use litematic_editor::Vector3;
use quartz_nbt::{NbtCompound, NbtTag};

#[test]
fn test_volume() {
    assert_eq!(Vector3::new(2, 3, 4).volume(), 24);
    assert_eq!(Vector3::new(0, 3, 4).volume(), 0);
    assert_eq!(Vector3::new(-2, 3, 4).volume(), 24);
}

#[test]
fn test_from_nbt() {
    let mut root = NbtCompound::new();

    let mut vec_nbt = NbtCompound::new();

    vec_nbt.insert("x", 2);
    vec_nbt.insert("y", 3);
    vec_nbt.insert("z", 4);

    root.insert("size", vec_nbt);

    assert_eq!(
        Vector3::from_nbt(&root, "size").unwrap(),
        Vector3::new(2, 3, 4)
    );
}

#[test]
fn test_to_nbt() {
    let nbt: NbtTag = Vector3::new(2, 3, 4).to_nbt();

    if let NbtTag::Compound(v) = nbt {
        assert_eq!(v.get::<_, i32>("x").unwrap(), 2);
        assert_eq!(v.get::<_, i32>("y").unwrap(), 3);
        assert_eq!(v.get::<_, i32>("z").unwrap(), 4);
    } else {
        panic!("`into` conversion didn't produce a compound");
    }
}

#[test]
fn vector_volume_of_documented_values() {
    assert_eq!(Vector3::new(0, 0, 0).volume(), 0);
    assert_eq!(Vector3::new(1, 2, 3).volume(), 6);
    assert_eq!(Vector3::new(-3, 2, 7).volume(), 42);
    assert_eq!(Vector3::new(-1290, -1290, -1290).volume(), 2146689000);
}

#[test]
fn vector_fits_in_positive_and_negative() {
    let v1 = Vector3::new(1, 2, 3);
    assert!(Vector3::new(2, 3, 4).fits_in_positive(v1));
    assert!(Vector3::new(1, 2, 3).fits_in_positive(v1));
    assert!(!Vector3::new(1, 1, 3).fits_in_positive(v1));
    assert!(Vector3::new(0, 1, 2).fits_in_negative(v1));
    assert!(Vector3::new(1, 2, 3).fits_in_negative(v1));
    assert!(!Vector3::new(1, 2, 4).fits_in_negative(v1));
}

#[test]
fn vector_add_sub_and_slices() {
    let a = Vector3::new(1, -2, 3);
    let b = Vector3::new(10, 20, -30);
    assert_eq!(a + b, Vector3::new(11, 18, -27));
    assert_eq!(a - b, Vector3::new(-9, -22, 33));
    assert_eq!(a.into_slice(), [1, -2, 3]);
    assert_eq!(Vector3::from_slice([7, 8, 9]), Vector3::new(7, 8, 9));
    assert_eq!(Vector3::<i32>::default(), Vector3::new(0, 0, 0));
    let u: litematic_editor::UVector3 = Vector3::new(1u32, 2u32, 3u32);
    assert_eq!(u.into_slice(), [1u32, 2, 3]);
}

#[test]
fn vector_from_nbt_reports_missing_and_mistyped_tags() {
    let mut root = NbtCompound::new();
    assert!(Vector3::from_nbt(&root, "size").is_err());

    root.insert("size", 5);
    assert!(Vector3::from_nbt(&root, "size").is_err());

    let mut partial = NbtCompound::new();
    partial.insert("x", 2);
    partial.insert("y", 3i64);
    partial.insert("z", 4);
    let mut root = NbtCompound::new();
    root.insert("size", partial);
    assert!(Vector3::from_nbt(&root, "size").is_err());
}

#[test]
fn vector_round_trips_through_its_tag() {
    let v = Vector3::new(-5, 0, i32::MAX);
    let mut root = NbtCompound::new();
    root.insert("v", v.to_nbt());
    assert_eq!(Vector3::from_nbt(&root, "v").unwrap(), v);
}
