use litematic_editor::{
    BlockState, LitematicParseError, Region, RegionParseError, Schematic, Vector3,
};
use quartz_nbt::io::{read_nbt, Flavor};
use quartz_nbt::{NbtCompound, NbtList};

fn region_at(offset: i32) -> Region {
    let mut region = Region::new();
    region.set_block(Vector3::new(0, 0, 0), BlockState::new("stone", None));
    region.set_block(
        Vector3::new(offset, 1, 0),
        BlockState::new("stone_bricks", None),
    );
    region.set_block(
        Vector3::new(offset, 2, 0),
        BlockState::new(
            "basalt",
            Some(vec![("axis".to_string(), "y".to_string())]),
        ),
    );
    region.set_block(Vector3::new(5, 2, 1), BlockState::new("basalt", None));
    region
}

fn sample() -> Schematic {
    Schematic {
        author: "someone".to_string(),
        description: "a test".to_string(),
        name: "sample".to_string(),
        region_count: 0,
        time_created: 1_600_000_000_000,
        time_modified: 1_700_000_000_000,
        regions: vec![("main".to_string(), region_at(2))],
        data_version: 2586,
    }
}

fn same_blocks(a: &Region, b: &Region) {
    assert_eq!(a.total_blocks(), b.total_blocks());
    for pos in a.blocks().keys() {
        assert_eq!(a.blocks().get(&pos), b.blocks().get(&pos));
    }
}

#[test]
fn schematic_round_trips_through_its_bytes() {
    let schematic = sample();
    let bytes = schematic.to_buffer().unwrap();
    assert!(bytes.len() > 2);
    assert_eq!(bytes[0], 0x1f);
    assert_eq!(bytes[1], 0x8b);

    let (root, _) = read_nbt(&mut &bytes[..], Flavor::GzCompressed).unwrap();
    let back = Schematic::from_nbt(&root).unwrap();

    assert_eq!(back.author, "someone");
    assert_eq!(back.description, "a test");
    assert_eq!(back.name, "sample");
    assert_eq!(back.region_count, 1);
    assert_eq!(back.time_created, 1_600_000_000_000);
    assert_eq!(back.time_modified, 1_700_000_000_000);
    assert_eq!(back.data_version, 2586);
    assert_eq!(back.regions.len(), 1);
    assert_eq!(back.regions[0].0, "main");
    same_blocks(&back.regions[0].1, &schematic.regions[0].1);
    same_blocks(&schematic.regions[0].1, &back.regions[0].1);
    assert_eq!(back.regions[0].1.volume(), schematic.regions[0].1.volume());
}

#[test]
fn schematic_round_trip_keeps_the_lists_of_a_region() {
    let mut entity = NbtCompound::new();
    entity.insert("id", "minecraft:cow");
    let mut entities = NbtList::new();
    entities.push(entity);

    let (mut encoded, _) = region_at(3).to_nbt();
    encoded.insert("Entities", entities.clone());
    let region = Region::new_from_nbt(encoded).unwrap();

    let mut schematic = sample();
    schematic.regions = vec![("only".to_string(), region)];

    let root = schematic.to_nbt();
    let back = Schematic::from_nbt(&root).unwrap();
    let (again, _) = back.regions[0].1.to_nbt();
    assert_eq!(again.get::<_, &NbtList>("Entities").unwrap(), &entities);
    assert!(!again.contains_key("TileEntities"));
    same_blocks(&back.regions[0].1, &schematic.regions[0].1);
}

#[test]
fn schematic_document_holds_what_describes_it() {
    let mut schematic = sample();
    schematic
        .regions
        .push(("second".to_string(), region_at(9)));

    let root = schematic.to_nbt();
    assert_eq!(root.get::<_, i32>("Version").unwrap(), 5);
    assert_eq!(root.get::<_, i32>("MinecraftDataVersion").unwrap(), 2586);
    assert_eq!(root.len(), 4);

    let metadata = root.get::<_, &NbtCompound>("Metadata").unwrap();
    assert_eq!(metadata.get::<_, &str>("Name").unwrap(), "sample");
    assert_eq!(metadata.get::<_, &str>("Author").unwrap(), "someone");
    assert_eq!(metadata.get::<_, &str>("Description").unwrap(), "a test");
    assert_eq!(metadata.get::<_, i32>("RegionCount").unwrap(), 2);
    assert_eq!(metadata.get::<_, i32>("TotalBlocks").unwrap(), 8);
    assert_eq!(
        metadata.get::<_, i64>("TimeCreated").unwrap(),
        1_600_000_000_000
    );
    assert_eq!(
        metadata.get::<_, i64>("TimeModified").unwrap(),
        1_700_000_000_000
    );
    assert_eq!(
        Vector3::from_nbt(metadata, "EnclosingSize").unwrap(),
        Vector3::new(10, 3, 2)
    );
    assert_eq!(metadata.get::<_, i32>("TotalVolume").unwrap(), 60);
    assert_eq!(metadata.len(), 9);

    let regions = root.get::<_, &NbtCompound>("Regions").unwrap();
    assert_eq!(regions.len(), 2);
    assert!(regions.contains_key("main"));
    assert!(regions.contains_key("second"));
}

#[test]
fn schematic_without_regions_is_written_with_an_empty_box() {
    let mut schematic = sample();
    schematic.regions = Vec::new();
    let root = schematic.try_to_nbt().unwrap();
    let metadata = root.get::<_, &NbtCompound>("Metadata").unwrap();
    assert_eq!(metadata.get::<_, i32>("RegionCount").unwrap(), 0);
    assert_eq!(metadata.get::<_, i32>("TotalBlocks").unwrap(), 0);
    assert_eq!(metadata.get::<_, i32>("TotalVolume").unwrap(), 0);
    assert_eq!(
        Vector3::from_nbt(metadata, "EnclosingSize").unwrap(),
        Vector3::new(0, 0, 0)
    );
    let back = Schematic::from_nbt(&root).unwrap();
    assert!(back.regions.is_empty());
}

#[test]
fn schematic_that_cannot_be_written_gives_nothing() {
    let mut schematic = sample();
    schematic
        .regions
        .push(("main".to_string(), region_at(4)));
    assert!(schematic.try_to_nbt().is_none());

    let mut far = Region::new();
    far.set_block(
        Vector3::new(i32::MAX, 0, 0),
        BlockState::new("stone", None),
    );
    let mut schematic = sample();
    schematic.regions = vec![("far".to_string(), far)];
    assert!(schematic.try_to_nbt().is_none());

    let mut wide = Region::new();
    wide.set_block(Vector3::new(2_000, 2_000, 2_000), BlockState::new("stone", None));
    assert!(!wide.can_encode());
    let mut schematic = sample();
    schematic.regions = vec![("wide".to_string(), wide)];
    assert!(schematic.try_to_nbt().is_none());
}

#[test]
fn schematic_of_another_version_is_refused() {
    let mut root = sample().to_nbt();
    root.insert("Version", 6);
    match Schematic::from_nbt(&root) {
        Err(LitematicParseError::UnsupportedVersionNumber(version)) => assert_eq!(version, 6),
        _ => panic!("a schematic of version 6 was accepted"),
    }
}

#[test]
fn schematic_errors_name_what_is_wrong() {
    let root = NbtCompound::new();
    assert!(matches!(
        Schematic::from_nbt(&root),
        Err(LitematicParseError::NonexistentTag(_))
    ));

    let mut root = sample().to_nbt();
    root.insert("Metadata", NbtCompound::new());
    assert!(matches!(
        Schematic::from_nbt(&root),
        Err(LitematicParseError::NonexistentTag(_))
    ));

    let mut root = sample().to_nbt();
    root.insert("Regions", 3);
    match Schematic::from_nbt(&root) {
        Err(LitematicParseError::WrongTag(name)) => assert_eq!(name, "Regions"),
        _ => panic!("mistyped regions were accepted"),
    }

    let mut regions = NbtCompound::new();
    regions.insert("broken", 3);
    let mut root = sample().to_nbt();
    root.insert("Regions", regions);
    match Schematic::from_nbt(&root) {
        Err(LitematicParseError::WrongTag(name)) => assert_eq!(name, "broken"),
        _ => panic!("a mistyped region was accepted"),
    }

    let mut regions = NbtCompound::new();
    regions.insert("empty", NbtCompound::new());
    let mut root = sample().to_nbt();
    root.insert("Regions", regions);
    assert!(matches!(
        Schematic::from_nbt(&root),
        Err(LitematicParseError::RegionParseError(
            RegionParseError::NonexistentTag(_)
        ))
    ));
    assert!(matches!(
        Schematic::parse_regions(&root),
        Err(LitematicParseError::RegionParseError(_))
    ));

    let mut root = sample().to_nbt();
    root.insert("MinecraftDataVersion", "new");
    assert!(matches!(
        Schematic::from_nbt(&root),
        Err(LitematicParseError::NonexistentTag(_))
    ));
}

#[test]
fn schematic_errors_say_which_tag_is_wrong() {
    match Schematic::from_nbt(&NbtCompound::new()) {
        Err(LitematicParseError::NonexistentTag(err)) => {
            assert_eq!(format!("{}", err), "Missing tag \"Version\"")
        }
        _ => panic!("an empty compound was accepted"),
    }

    let mut root = sample().to_nbt();
    root.insert("Version", 5i64);
    match Schematic::from_nbt(&root) {
        Err(LitematicParseError::NonexistentTag(err)) => assert_eq!(
            format!("{}", err),
            "Tag type mismatch: expected Int but found Long"
        ),
        _ => panic!("a mistyped version was accepted"),
    }

    let mut metadata = NbtCompound::new();
    metadata.insert("Author", "someone");
    metadata.insert("Description", "a test");
    metadata.insert("Name", "sample");
    metadata.insert("RegionCount", 1);
    metadata.insert("TimeCreated", 1);
    let mut root = sample().to_nbt();
    root.insert("Metadata", metadata);
    match Schematic::from_nbt(&root) {
        Err(LitematicParseError::NonexistentTag(err)) => assert_eq!(
            format!("{}", err),
            "Tag type mismatch: expected Long but found Int"
        ),
        _ => panic!("a mistyped time was accepted"),
    }

    let mut root = sample().to_nbt();
    root.insert("Metadata", NbtCompound::new());
    match Schematic::from_nbt(&root) {
        Err(LitematicParseError::NonexistentTag(err)) => {
            assert_eq!(format!("{}", err), "Missing tag \"Author\"")
        }
        _ => panic!("empty metadata was accepted"),
    }

    let mut root = sample().to_nbt();
    root.insert("MinecraftDataVersion", "new");
    match Schematic::from_nbt(&root) {
        Err(LitematicParseError::NonexistentTag(err)) => assert_eq!(
            format!("{}", err),
            "Tag type mismatch: expected Int but found String"
        ),
        _ => panic!("a mistyped data version was accepted"),
    }

    let mut root = NbtCompound::new();
    root.insert("Version", 5);
    root.insert("Metadata", sample().to_nbt().get::<_, &NbtCompound>("Metadata").unwrap().clone());
    match Schematic::from_nbt(&root) {
        Err(LitematicParseError::NonexistentTag(err)) => {
            assert_eq!(format!("{}", err), "Missing tag \"Regions\"")
        }
        _ => panic!("a schematic without regions tag was accepted"),
    }
}

#[test]
fn schematic_of_several_regions_reads_back_each_under_its_name() {
    let mut schematic = sample();
    schematic
        .regions
        .push(("second".to_string(), region_at(9)));
    schematic.regions.push(("empty".to_string(), Region::new()));

    let back = Schematic::from_nbt(&schematic.to_nbt()).unwrap();
    assert_eq!(back.regions.len(), 3);
    assert_eq!(back.region_count, 3);
    for (name, region) in schematic.regions.iter() {
        let mut found = 0;
        for (other, read) in back.regions.iter() {
            if other == name {
                found += 1;
                same_blocks(region, read);
                same_blocks(read, region);
                assert_eq!(read.volume, region.volume().make_size_positive());
                assert_eq!(read.volume(), region.volume());
            }
        }
        assert_eq!(found, 1);
    }
}
