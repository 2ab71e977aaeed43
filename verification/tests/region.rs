use litematic_editor::{
    BlockState, BlockStateParseError, Region, RegionParseError, Vector3, Volume,
};
use quartz_nbt::{NbtCompound, NbtList, NbtTag};

fn numbered_palette(len: usize) -> Vec<BlockState> {
    let mut palette = Vec::new();
    let mut i = 0;
    while i < len {
        palette.push(BlockState::new(&format!("state_{}", i), None));
        i += 1;
    }
    palette
}

fn four_blocks() -> Region {
    let mut region = Region::new();

    region.set_block(Vector3::new(0, 0, 0), BlockState::new("stone", None));
    region.set_block(Vector3::new(2, 1, 0), BlockState::new("stone_bricks", None));
    region.set_block(Vector3::new(2, 2, 0), BlockState::new("stone_bricks", None));
    region.set_block(Vector3::new(5, 2, 1), BlockState::new("basalt", None));

    region
}

#[test]
fn region_test_parse_palette() {
    let mut list = NbtList::new();

    list.push(BlockState::new("bruh", None).to_nbt());
    list.push(BlockState::new("yeet", None).to_nbt());
    list.push(BlockState::new("poggers?", None).to_nbt());

    let parsed = Region::parse_palette(&list);

    if let Ok(parsed_ok) = parsed {
        assert_eq!(parsed_ok.len(), 3);
        assert_eq!(parsed_ok[0].get_block(), "minecraft:bruh");
        assert_eq!(parsed_ok[1].get_block(), "minecraft:yeet");
        assert_eq!(parsed_ok[2].get_block(), "minecraft:poggers?");
    } else {
        panic!("parse_palette errored when it shouldn't have")
    }

    let mut list2 = NbtList::new();

    list2.push(1);
    list2.push(2);
    list2.push(3);

    let parsed2 = Region::parse_palette(&list2);

    if let Ok(_) = parsed2 {
        panic!("parse_palette succeeded when it shouldn't have")
    } else if let Err(err) = parsed2 {
        if let BlockStateParseError::WrongTag(_) = err {
            // correct
        } else {
            panic!("parse_palette failed for the wrong reason")
        }
    }
}

#[test]
fn utils_test_parse_palette() {
    let mut list = NbtList::new();

    list.push(BlockState::new("bruh", None).to_nbt());
    list.push(BlockState::new("yeet", None).to_nbt());
    list.push(BlockState::new("poggers?", None).to_nbt());

    let parsed = Region::parse_palette(&list);

    if let Ok(parsed_ok) = parsed {
        assert_eq!(parsed_ok.len(), 3);
        assert_eq!(parsed_ok[0].get_block(), "minecraft:bruh");
        assert_eq!(parsed_ok[1].get_block(), "minecraft:yeet");
        assert_eq!(parsed_ok[2].get_block(), "minecraft:poggers?");
    } else {
        panic!("parse_palette errored when it shouldn't have")
    }

    let mut list2 = NbtList::new();

    list2.push(1);
    list2.push(2);
    list2.push(3);

    let parsed2 = Region::parse_palette(&list2);

    if let Ok(_) = parsed2 {
        panic!("parse_palette succeeded when it shouldn't have")
    } else if let Err(err) = parsed2 {
        if let BlockStateParseError::WrongTag(_) = err {
            // correct
        } else {
            panic!("parse_palette failed for the wrong reason")
        }
    }
}

#[test]
fn region_test_unpack_packed_array() {
    let array: &[i64] = &[0x0123456789abcdef, 0x1032547698badcfe];
    let palette = numbered_palette(128);

    let unpacked = Region::unpack_packed_array(array, &palette, 7, Vector3::new(2, 3, 3));

    assert_eq!(unpacked.get(&Vector3::new(0, 0, 0)), Some(&palette[111]));
    assert_eq!(unpacked.get(&Vector3::new(1, 0, 0)), Some(&palette[27]));
    assert_eq!(unpacked.get(&Vector3::new(0, 1, 2)), Some(&palette[115]));
    assert_eq!(unpacked.get(&Vector3::new(1, 1, 1)), Some(&palette[124]));
}

#[test]
fn utils_test_unpack_packed_array() {
    let array: &[i64] = &[0x1111111111111111];

    let palette = vec![BlockState::new("air", None), BlockState::new("stone", None)];

    let unpacked = Region::unpack_packed_array(array, &palette, 2, Vector3::new(2, 4, 4));

    assert_eq!(
        unpacked.get(&Vector3::new(0, 0, 0)),
        Some(&BlockState::new("stone", None))
    );
    assert_eq!(unpacked.get(&Vector3::new(1, 0, 0)), None);
    assert_eq!(
        unpacked.get(&Vector3::new(0, 1, 2)),
        Some(&BlockState::new("stone", None))
    );
    assert_eq!(unpacked.get(&Vector3::new(1, 1, 1)), None);
}

#[test]
fn region_test_new_from_nbt() {
    let mut root = NbtCompound::new();

    let mut palette = NbtList::new();

    palette.push(BlockState::new("bruh", None).to_nbt());
    palette.push(BlockState::new("yeet", None).to_nbt());
    palette.push(BlockState::new("poggers?", None).to_nbt());
    palette.push(BlockState::new("poggers.", None).to_nbt());

    root.insert("BlockStatePalette", palette);

    root.insert(
        "BlockStates",
        vec![0x0123456789abcdef_i64, 0x1032547698badcfe],
    );

    root.insert("Size", Vector3::new(4, 4, 4).to_nbt());
    root.insert("Position", Vector3::new(0, 0, 0).to_nbt());

    Region::new_from_nbt(root).unwrap();
}

#[test]
fn test_generate_block_data() {
    let mut region = Region::new();

    region.set_block(Vector3::new(0, 0, 0), BlockState::new("stone", None));
    region.set_block(Vector3::new(2, 1, 0), BlockState::new("stone_bricks", None));
    region.set_block(Vector3::new(2, 2, 0), BlockState::new("stone_bricks", None));
    region.set_block(Vector3::new(5, 2, 1), BlockState::new("basalt", None));

    let palette = Region::generate_palette_nbt(region.blocks());

    assert!(palette.contains(&BlockState::new("stone", None)));
    assert!(palette.contains(&BlockState::new("basalt", None)));
    assert_eq!(palette.len(), 4);
    assert_eq!(palette[0], BlockState::new("air", None));

    let volume = region.volume();
    let size = volume.size();

    let block_states = region.generate_block_states_nbt(volume, &palette);

    assert_eq!(block_states.len(), 2);
    assert_eq!(
        palette[Region::get_index_out_of_packed_array(
            &block_states,
            Region::coords_to_index(size, Vector3::new(0, 0, 0)).unwrap(),
            2
        )],
        BlockState::new("stone", None)
    );
    assert_eq!(
        palette[Region::get_index_out_of_packed_array(
            &block_states,
            Region::coords_to_index(size, Vector3::new(2, 1, 0)).unwrap(),
            2
        )],
        BlockState::new("stone_bricks", None)
    );
    assert_eq!(
        palette[Region::get_index_out_of_packed_array(
            &block_states,
            Region::coords_to_index(size, Vector3::new(2, 2, 0)).unwrap(),
            2
        )],
        BlockState::new("stone_bricks", None)
    );
    assert_eq!(
        palette[Region::get_index_out_of_packed_array(
            &block_states,
            Region::coords_to_index(size, Vector3::new(5, 2, 1)).unwrap(),
            2
        )],
        BlockState::new("basalt", None)
    );
    assert_eq!(
        palette[Region::get_index_out_of_packed_array(
            &block_states,
            Region::coords_to_index(size, Vector3::new(1, 0, 1)).unwrap(),
            2
        )],
        BlockState::new("air", None)
    );
}

#[test]
fn region_new_is_empty() {
    let region = Region::new();
    assert_eq!(region.total_blocks(), 0);
    assert_eq!(region.blocks().len(), 0);
    assert_eq!(region.volume, Volume::default());
    assert_eq!(region.volume(), Volume::default());
    assert!(region.blocks().keys().is_empty());
    assert!(region.can_encode());
}

#[test]
fn region_set_block_with_air_removes_the_block() {
    let mut region = Region::new();
    let pos = Vector3::new(3, -4, 5);

    region.set_block(pos, BlockState::new("stone", None));
    assert_eq!(region.total_blocks(), 1);
    assert!(region.blocks().contains_key(&pos));
    assert_eq!(region.blocks().get(&pos), Some(&BlockState::new("stone", None)));

    region.set_block(pos, BlockState::new("basalt", None));
    assert_eq!(region.total_blocks(), 1);
    assert_eq!(region.blocks().get(&pos), Some(&BlockState::new("basalt", None)));

    region.set_block(Vector3::new(0, 0, 0), BlockState::new("air", None));
    assert_eq!(region.total_blocks(), 1);

    region.set_block(pos, BlockState::new("Air", None));
    assert_eq!(region.total_blocks(), 0);
    assert_eq!(region.blocks().get(&pos), None);
    assert!(!region.blocks().contains_key(&pos));
}

#[test]
fn region_keeps_blocks_at_the_ends_of_the_coordinate_range() {
    let mut region = Region::new();
    let low = Vector3::new(i32::MIN, i32::MIN, i32::MIN);
    let high = Vector3::new(i32::MAX, i32::MAX, i32::MAX);
    let mixed = Vector3::new(-1, 0, i32::MAX);
    region.set_block(low, BlockState::new("a", None));
    region.set_block(high, BlockState::new("b", None));
    region.set_block(mixed, BlockState::new("c", None));
    assert_eq!(region.blocks().get(&low), Some(&BlockState::new("a", None)));
    assert_eq!(region.blocks().get(&high), Some(&BlockState::new("b", None)));
    assert_eq!(region.blocks().get(&mixed), Some(&BlockState::new("c", None)));
    assert_eq!(region.blocks().get(&Vector3::new(0, -1, i32::MAX)), None);
    let mut keys = region.blocks().keys();
    keys.sort_by_key(|p| (p.x, p.y, p.z));
    assert_eq!(keys, vec![low, mixed, high]);
    assert!(!region.can_encode());
}

#[test]
fn region_volume_covers_every_block() {
    let region = four_blocks();
    assert_eq!(
        region.volume(),
        Volume::new(Vector3::new(0, 0, 0), Vector3::new(6, 3, 2))
    );
    assert_eq!(region.volume, Volume::default());

    let mut region = Region::new();
    region.set_block(Vector3::new(-2, 4, 0), BlockState::new("stone", None));
    region.set_block(Vector3::new(3, -1, 7), BlockState::new("stone", None));
    assert_eq!(
        region.volume().make_size_positive(),
        Volume::new(Vector3::new(-2, -1, 0), Vector3::new(6, 6, 8))
    );
}

#[test]
fn region_palette_of_an_empty_region_is_air_alone() {
    let region = Region::new();
    let palette = Region::generate_palette_nbt(region.blocks());
    assert_eq!(palette, vec![BlockState::new("air", None)]);
    let words = region.generate_block_states_nbt(region.volume(), &palette);
    assert!(words.is_empty());
}

#[test]
fn region_round_trip_of_four_blocks() {
    let region = four_blocks();
    assert!(region.can_encode());

    let (encoded, volume) = region.to_nbt();
    assert_eq!(
        volume,
        Volume::new(Vector3::new(0, 0, 0), Vector3::new(6, 3, 2))
    );
    assert_eq!(
        Vector3::from_nbt(&encoded, "Position").unwrap(),
        Vector3::new(0, 0, 0)
    );
    assert_eq!(
        Vector3::from_nbt(&encoded, "Size").unwrap(),
        Vector3::new(6, 3, 2)
    );
    assert_eq!(encoded.get::<_, &NbtList>("BlockStatePalette").unwrap().len(), 4);
    assert_eq!(encoded.get::<_, &[i64]>("BlockStates").unwrap().len(), 2);
    assert_eq!(encoded.len(), 4);

    let decoded = Region::new_from_nbt(encoded).unwrap();
    assert_eq!(decoded.total_blocks(), 4);
    assert_eq!(
        decoded.blocks().get(&Vector3::new(0, 0, 0)),
        Some(&BlockState::new("stone", None))
    );
    assert_eq!(
        decoded.blocks().get(&Vector3::new(2, 1, 0)),
        Some(&BlockState::new("stone_bricks", None))
    );
    assert_eq!(
        decoded.blocks().get(&Vector3::new(2, 2, 0)),
        Some(&BlockState::new("stone_bricks", None))
    );
    assert_eq!(
        decoded.blocks().get(&Vector3::new(5, 2, 1)),
        Some(&BlockState::new("basalt", None))
    );
    assert_eq!(decoded.blocks().get(&Vector3::new(1, 0, 1)), None);
    assert_eq!(decoded.volume, volume);
    assert_eq!(decoded.volume(), volume);
}

#[test]
fn region_is_written_relative_to_its_lowest_corner() {
    let mut region = Region::new();
    region.set_block(
        Vector3::new(-3, 2, 10),
        BlockState::new(
            "lever",
            Some(vec![("powered".to_string(), "true".to_string())]),
        ),
    );
    region.set_block(Vector3::new(-1, 2, 11), BlockState::new("stone", None));

    let (encoded, volume) = region.to_nbt();
    let bounds = volume.make_size_positive();
    assert_eq!(
        bounds,
        Volume::new(Vector3::new(-3, 0, 0), Vector3::new(3, 3, 12))
    );
    assert_eq!(
        Vector3::from_nbt(&encoded, "Position").unwrap(),
        Vector3::new(-3, 0, 0)
    );
    assert_eq!(
        Vector3::from_nbt(&encoded, "Size").unwrap(),
        Vector3::new(3, 3, 12)
    );

    let decoded = Region::new_from_nbt(encoded).unwrap();
    assert_eq!(decoded.total_blocks(), 2);
    assert_eq!(
        decoded.blocks().get(&Vector3::new(0, 2, 10)),
        Some(&BlockState::new(
            "lever",
            Some(vec![("powered".to_string(), "true".to_string())])
        ))
    );
    assert_eq!(
        decoded.blocks().get(&Vector3::new(2, 2, 11)),
        Some(&BlockState::new("stone", None))
    );
}

#[test]
fn region_of_no_blocks_is_written_with_its_palette_and_array() {
    let (encoded, volume) = Region::new().to_nbt();
    assert_eq!(volume, Volume::default());
    assert_eq!(encoded.get::<_, &NbtList>("BlockStatePalette").unwrap().len(), 1);
    assert_eq!(encoded.get::<_, &[i64]>("BlockStates").unwrap().len(), 0);
    assert!(!encoded.contains_key("Entities"));
    assert!(!encoded.contains_key("PendingBlockTicks"));
    assert!(!encoded.contains_key("PendingFluidTicks"));
    assert!(!encoded.contains_key("TileEntities"));

    let decoded = Region::new_from_nbt(encoded).unwrap();
    assert_eq!(decoded.total_blocks(), 0);
}

fn sample_region_compound() -> NbtCompound {
    let mut root = NbtCompound::new();
    let mut palette = NbtList::new();
    palette.push(BlockState::new("air", None).to_nbt());
    palette.push(BlockState::new("stone", None).to_nbt());
    palette.push(BlockState::new("basalt", None).to_nbt());
    root.insert("BlockStatePalette", palette);
    root.insert("BlockStates", vec![0b10_01_00_10_01_i64]);
    root.insert("Size", Vector3::new(2, 1, 2).to_nbt());
    root.insert("Position", Vector3::new(7, 8, 9).to_nbt());
    root
}

#[test]
fn region_is_read_from_its_compound() {
    let region = Region::new_from_nbt(sample_region_compound()).unwrap();
    assert_eq!(
        region.volume,
        Volume::new(Vector3::new(7, 8, 9), Vector3::new(2, 1, 2))
    );
    assert_eq!(region.total_blocks(), 3);
    assert_eq!(
        region.blocks().get(&Vector3::new(0, 0, 0)),
        Some(&BlockState::new("stone", None))
    );
    assert_eq!(
        region.blocks().get(&Vector3::new(1, 0, 0)),
        Some(&BlockState::new("basalt", None))
    );
    assert_eq!(region.blocks().get(&Vector3::new(0, 0, 1)), None);
    assert_eq!(
        region.blocks().get(&Vector3::new(1, 0, 1)),
        Some(&BlockState::new("stone", None))
    );
}

#[test]
fn region_reads_no_more_fields_than_the_volume_has_blocks() {
    let mut root = sample_region_compound();
    root.insert("Size", Vector3::new(2, 1, 1).to_nbt());
    let region = Region::new_from_nbt(root).unwrap();
    assert_eq!(region.total_blocks(), 2);

    let mut root = sample_region_compound();
    root.insert("Size", Vector3::new(1000, 1000, 1000).to_nbt());
    root.insert("BlockStates", vec![0b01_i64]);
    let region = Region::new_from_nbt(root).unwrap();
    assert_eq!(region.total_blocks(), 1);

    let mut root = sample_region_compound();
    root.insert("BlockStates", Vec::<i64>::new());
    let region = Region::new_from_nbt(root).unwrap();
    assert_eq!(region.total_blocks(), 0);
}

#[test]
fn region_keeps_its_lists_as_they_were_read() {
    let mut entity = NbtCompound::new();
    entity.insert("id", "minecraft:pig");
    entity.insert("Health", 10.0f32);
    let mut entities = NbtList::new();
    entities.push(entity);
    let mut ticks = NbtList::new();
    ticks.push(3i64);

    let mut root = sample_region_compound();
    root.insert("Entities", entities.clone());
    root.insert("PendingFluidTicks", ticks.clone());
    root.insert("TileEntities", 4);

    let region = Region::new_from_nbt(root).unwrap();
    let (encoded, _) = region.to_nbt();
    assert_eq!(encoded.get::<_, &NbtList>("Entities").unwrap(), &entities);
    assert_eq!(
        encoded.get::<_, &NbtList>("PendingFluidTicks").unwrap(),
        &ticks
    );
    assert!(!encoded.contains_key("PendingBlockTicks"));
    assert!(!encoded.contains_key("TileEntities"));

    let mut out = NbtCompound::new();
    out.insert("Size", 1);
    region.write_misc_data(&mut out);
    assert_eq!(out.len(), 3);
    assert_eq!(out.get::<_, &NbtList>("Entities").unwrap(), &entities);
}

#[test]
fn region_errors_name_what_is_wrong() {
    let mut root = sample_region_compound();
    root.insert("BlockStatePalette", 1);
    match Region::new_from_nbt(root) {
        Err(RegionParseError::WrongTag(name)) => assert_eq!(name, "BlockStatePalette"),
        _ => panic!("a mistyped palette was accepted"),
    }

    let mut root = sample_region_compound();
    root.insert("BlockStates", vec![1i32]);
    match Region::new_from_nbt(root) {
        Err(RegionParseError::WrongTag(name)) => assert_eq!(name, "BlockStates"),
        _ => panic!("a mistyped block array was accepted"),
    }

    let mut root = NbtCompound::new();
    root.insert("BlockStates", vec![1i64]);
    assert!(matches!(
        Region::new_from_nbt(root),
        Err(RegionParseError::NonexistentTag(_))
    ));

    let mut root = sample_region_compound();
    let mut palette = NbtList::new();
    palette.push(BlockState::new("air", None).to_nbt());
    palette.push(NbtTag::Compound(NbtCompound::new()));
    root.insert("BlockStatePalette", palette);
    assert!(matches!(
        Region::new_from_nbt(root),
        Err(RegionParseError::BlockStateParseError(
            BlockStateParseError::NonexistentTag(_)
        ))
    ));

    let mut root = sample_region_compound();
    root.insert("Size", 3);
    assert!(matches!(
        Region::new_from_nbt(root),
        Err(RegionParseError::NonexistentTag(_))
    ));

    let mut root = NbtCompound::new();
    let mut palette = NbtList::new();
    palette.push(BlockState::new("air", None).to_nbt());
    root.insert("BlockStatePalette", palette);
    root.insert("BlockStates", vec![1i64]);
    root.insert("Size", Vector3::new(1, 1, 1).to_nbt());
    assert!(matches!(
        Region::new_from_nbt(root),
        Err(RegionParseError::NonexistentTag(_))
    ));
}

#[test]
fn region_with_an_index_outside_its_palette_is_refused() {
    let mut root = sample_region_compound();
    root.insert("BlockStates", vec![0b11_i64]);
    assert!(matches!(
        Region::new_from_nbt(root),
        Err(RegionParseError::Unknown)
    ));

    let palette = vec![BlockState::new("air", None)];
    assert!(Region::try_unpack_packed_array(&[1], &palette, 2, Vector3::new(1, 1, 1)).is_none());
    assert!(Region::try_unpack_packed_array(&[1], &palette, 2, Vector3::new(0, 1, 1)).is_some());
    assert!(Region::try_unpack_packed_array(&[4], &palette, 2, Vector3::new(1, 1, 1)).is_some());
}

#[test]
fn region_with_a_far_corner_out_of_range_is_refused() {
    let mut root = sample_region_compound();
    root.insert("Position", Vector3::new(i32::MAX, 0, 0).to_nbt());
    assert!(matches!(
        Region::new_from_nbt(root),
        Err(RegionParseError::Unknown)
    ));
}

#[test]
fn region_palette_holds_each_state_once() {
    let mut region = four_blocks();
    region.set_block(
        Vector3::new(1, 1, 1),
        BlockState::new(
            "stone",
            Some(vec![("kind".to_string(), "smooth".to_string())]),
        ),
    );
    let palette = Region::generate_palette_nbt(region.blocks());
    assert_eq!(palette.len(), 5);
    assert_eq!(palette[0], BlockState::new("air", None));
    let mut i = 0;
    while i < palette.len() {
        let mut j = i + 1;
        while j < palette.len() {
            assert_ne!(palette[i], palette[j]);
            j += 1;
        }
        i += 1;
    }
    assert!(palette.contains(&BlockState::new("stone_bricks", None)));
}

#[test]
fn region_block_array_holds_the_first_place_of_each_state() {
    let region = four_blocks();
    let palette = vec![
        BlockState::new("air", None),
        BlockState::new("basalt", None),
        BlockState::new("glass", None),
        BlockState::new("stone", None),
        BlockState::new("stone_bricks", None),
        BlockState::new("stone", None),
    ];
    let volume = Volume::new(Vector3::new(0, 0, 0), Vector3::new(6, 3, 2));
    let words = region.generate_block_states_nbt(volume, &palette);
    assert_eq!(words.len(), 2);
    let mut index: u64 = 0;
    while index < 36 {
        let expected = match index {
            0 => 3,
            14 => 4,
            26 => 4,
            35 => 1,
            _ => 0,
        };
        assert_eq!(
            Region::get_index_out_of_packed_array(&words, index, 3),
            expected
        );
        index += 1;
    }
}

#[test]
fn region_block_array_is_zero_above_the_last_block() {
    let region = four_blocks();
    let palette = Region::generate_palette_nbt(region.blocks());
    let words = region.generate_block_states_nbt(region.volume(), &palette);
    assert_eq!(words.len(), 2);
    assert_eq!((words[1] as u64) >> 8, 0);

    let mut full = Region::new();
    let mut x = 0;
    while x < 3 {
        let mut z = 0;
        while z < 3 {
            full.set_block(Vector3::new(x, 0, z), BlockState::new("stone", None));
            full.set_block(Vector3::new(x, 1, z), BlockState::new("basalt", None));
            full.set_block(Vector3::new(x, 2, z), BlockState::new("glass", None));
            z += 1;
        }
        x += 1;
    }
    let palette = Region::generate_palette_nbt(full.blocks());
    assert_eq!(palette.len(), 4);
    let words = full.generate_block_states_nbt(full.volume(), &palette);
    assert_eq!(words.len(), 1);
    assert_eq!((words[0] as u64) >> 54, 0);
    assert_ne!((words[0] as u64) >> 52, 0);
}

#[test]
fn region_errors_say_which_tag_is_wrong() {
    let mut root = NbtCompound::new();
    root.insert("BlockStates", vec![1i64]);
    match Region::new_from_nbt(root) {
        Err(RegionParseError::NonexistentTag(err)) => {
            assert_eq!(format!("{}", err), "Missing tag \"BlockStatePalette\"")
        }
        _ => panic!("a region without a palette was accepted"),
    }

    let mut root = sample_region_compound();
    root.insert("Size", 3);
    match Region::new_from_nbt(root) {
        Err(RegionParseError::NonexistentTag(err)) => assert_eq!(
            format!("{}", err),
            "Tag type mismatch: expected Compound but found Int"
        ),
        _ => panic!("a mistyped size was accepted"),
    }

    let mut size = NbtCompound::new();
    size.insert("x", 1);
    size.insert("z", 1);
    let mut root = sample_region_compound();
    root.insert("Size", size);
    match Region::new_from_nbt(root) {
        Err(RegionParseError::NonexistentTag(err)) => {
            assert_eq!(format!("{}", err), "Missing tag \"y\"")
        }
        _ => panic!("a size without y was accepted"),
    }

    let mut palette = NbtList::new();
    let mut entry = NbtCompound::new();
    entry.insert("Name", 5i64);
    palette.push(entry);
    let mut root = sample_region_compound();
    root.insert("BlockStatePalette", palette);
    match Region::new_from_nbt(root) {
        Err(RegionParseError::BlockStateParseError(BlockStateParseError::NonexistentTag(
            err,
        ))) => assert_eq!(
            format!("{}", err),
            "Tag type mismatch: expected String but found Long"
        ),
        _ => panic!("a palette entry with a mistyped name was accepted"),
    }
}
