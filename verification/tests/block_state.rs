use litematic_editor::{BlockState, BlockStateParseError};
use quartz_nbt::{NbtCompound, NbtTag};

#[test]
fn test_prefix_block_name() {
    assert_eq!(BlockState::prefix_block_name("air"), "minecraft:air");
    assert_eq!(BlockState::prefix_block_name("Air"), "minecraft:air");
    assert_eq!(BlockState::prefix_block_name("CoOlMoD:aIr"), "coolmod:air");
}

#[test]
fn block_state_test_new_from_nbt() {
    let mut compound = NbtCompound::new();

    compound.insert("Name", "bruh");

    assert_eq!(
        BlockState::new_from_nbt(&compound).unwrap(),
        BlockState::new("bruh", None)
    );

    let mut compound = NbtCompound::new();

    compound.insert("Name", "observer");

    let mut properties = NbtCompound::new();

    properties.insert("facing", "west");
    properties.insert("powered", "false");

    compound.insert("Properties", properties);

    let mut properties_map = Vec::new();

    properties_map.push(("facing".to_string(), "west".to_string()));
    properties_map.push(("powered".to_string(), "false".to_string()));

    assert_eq!(
        BlockState::new_from_nbt(&compound).unwrap(),
        BlockState::new("observer", Some(properties_map))
    )
}

#[test]
fn block_state_name_is_normalized() {
    assert_eq!(BlockState::new("stone", None).get_block(), "minecraft:stone");
    assert_eq!(BlockState::new("ModX:Foo", None).get_block(), "modx:foo");
    assert_eq!(
        BlockState::new("sToNe", None),
        BlockState::new("minecraft:stone", None)
    );
    assert_eq!(BlockState::prefix_block_name(""), "minecraft:");
    assert_eq!(BlockState::prefix_block_name(":"), ":");
}

#[test]
fn block_state_set_block_replaces_the_name_only() {
    let mut block = BlockState::new(
        "stone",
        Some(vec![("axis".to_string(), "y".to_string())]),
    );
    assert_eq!(block.get_block(), "minecraft:stone");

    block.set_block("Basalt");
    assert_eq!(block.get_block(), "minecraft:basalt");
    assert_eq!(block.property("axis"), Some(&"y".to_string()));
    assert_eq!(block.properties().len(), 1);
}

#[test]
fn block_state_equality_ignores_the_order_of_properties() {
    let a = BlockState::new(
        "observer",
        Some(vec![
            ("facing".to_string(), "west".to_string()),
            ("powered".to_string(), "false".to_string()),
        ]),
    );
    let b = BlockState::new(
        "observer",
        Some(vec![
            ("powered".to_string(), "false".to_string()),
            ("facing".to_string(), "west".to_string()),
        ]),
    );
    assert_eq!(a, b);
    assert_eq!(a.clone(), a);

    let c = BlockState::new(
        "observer",
        Some(vec![("facing".to_string(), "west".to_string())]),
    );
    assert_ne!(a, c);
    assert_ne!(c, a);

    let d = BlockState::new(
        "observer",
        Some(vec![
            ("facing".to_string(), "east".to_string()),
            ("powered".to_string(), "false".to_string()),
        ]),
    );
    assert_ne!(a, d);
    assert_ne!(a, BlockState::new("piston", None));
}

#[test]
fn block_state_last_entry_of_a_key_counts() {
    let mut state = BlockState::new(
        "lever",
        Some(vec![
            ("powered".to_string(), "false".to_string()),
            ("powered".to_string(), "true".to_string()),
        ]),
    );
    assert_eq!(state.property("powered"), Some(&"true".to_string()));
    assert_eq!(state.property("face"), None);
    assert_eq!(
        state,
        BlockState::new(
            "lever",
            Some(vec![("powered".to_string(), "true".to_string())])
        )
    );

    state.set_property("powered".to_string(), "false".to_string());
    state.set_property("face".to_string(), "wall".to_string());
    assert_eq!(state.property("powered"), Some(&"false".to_string()));
    assert_eq!(state.property("face"), Some(&"wall".to_string()));
}

#[test]
fn block_state_air_is_recognized() {
    assert!(BlockState::new("air", None).is_air());
    assert!(BlockState::new("Minecraft:AIR", None).is_air());
    assert!(!BlockState::new("stone", None).is_air());
    assert!(!BlockState::new(
        "air",
        Some(vec![("waterlogged".to_string(), "true".to_string())])
    )
    .is_air());
}

#[test]
fn block_state_properties_must_be_a_compound() {
    let mut compound = NbtCompound::new();
    compound.insert("Name", "observer");
    compound.insert("Properties", 5);

    match BlockState::new_from_nbt(&compound) {
        Err(BlockStateParseError::WrongTag(name)) => assert_eq!(name, "Properties"),
        _ => panic!("a mistyped Properties tag was accepted"),
    }
}

#[test]
fn block_state_name_must_be_a_string() {
    let compound = NbtCompound::new();
    assert!(matches!(
        BlockState::new_from_nbt(&compound),
        Err(BlockStateParseError::NonexistentTag(_))
    ));

    let mut compound = NbtCompound::new();
    compound.insert("Name", 7);
    assert!(matches!(
        BlockState::new_from_nbt(&compound),
        Err(BlockStateParseError::NonexistentTag(_))
    ));
}

#[test]
fn block_state_mistyped_properties_come_before_a_missing_name() {
    let mut compound = NbtCompound::new();
    compound.insert("Properties", "none");
    assert!(matches!(
        BlockState::new_from_nbt(&compound),
        Err(BlockStateParseError::WrongTag(_))
    ));
}

#[test]
fn block_state_properties_that_are_no_strings_are_passed_over() {
    let mut properties = NbtCompound::new();
    properties.insert("facing", "west");
    properties.insert("age", 3);

    let mut compound = NbtCompound::new();
    compound.insert("Name", "Wheat");
    compound.insert("Properties", properties);

    let parsed = BlockState::new_from_nbt(&compound).unwrap();
    assert_eq!(parsed.get_block(), "minecraft:wheat");
    assert_eq!(parsed.property("facing"), Some(&"west".to_string()));
    assert_eq!(parsed.property("age"), None);
    assert_eq!(parsed.properties().len(), 1);
}

#[test]
fn block_state_to_nbt_leaves_out_empty_properties() {
    let tag = BlockState::new("stone", None).to_nbt();
    if let NbtTag::Compound(compound) = tag {
        assert_eq!(compound.get::<_, &str>("Name").unwrap(), "minecraft:stone");
        assert!(!compound.contains_key("Properties"));
        assert_eq!(compound.len(), 1);
    } else {
        panic!("a block state was not written as a compound");
    }
}

#[test]
fn block_state_round_trips_through_its_tag() {
    let state = BlockState::new(
        "Basalt",
        Some(vec![
            ("axis".to_string(), "x".to_string()),
            ("axis".to_string(), "y".to_string()),
            ("lit".to_string(), "false".to_string()),
        ]),
    );
    let tag = state.to_nbt();
    if let NbtTag::Compound(compound) = tag {
        assert_eq!(compound.get::<_, &str>("Name").unwrap(), "minecraft:basalt");
        let properties = compound.get::<_, &NbtCompound>("Properties").unwrap();
        assert_eq!(properties.len(), 2);
        assert_eq!(properties.get::<_, &str>("axis").unwrap(), "y");
        assert_eq!(properties.get::<_, &str>("lit").unwrap(), "false");
        assert_eq!(BlockState::new_from_nbt(&compound).unwrap(), state);
    } else {
        panic!("a block state was not written as a compound");
    }
}

#[test]
fn block_state_errors_say_which_tag_is_wrong() {
    match BlockState::new_from_nbt(&NbtCompound::new()) {
        Err(BlockStateParseError::NonexistentTag(err)) => {
            assert_eq!(format!("{}", err), "Missing tag \"Name\"")
        }
        _ => panic!("a palette entry without a name was accepted"),
    }

    let mut compound = NbtCompound::new();
    compound.insert("Name", 7);
    match BlockState::new_from_nbt(&compound) {
        Err(BlockStateParseError::NonexistentTag(err)) => assert_eq!(
            format!("{}", err),
            "Tag type mismatch: expected String but found Int"
        ),
        _ => panic!("a palette entry with a mistyped name was accepted"),
    }
}
