use vinox_chunks::{
    identifier_to_just_name, identifier_to_name, name_to_identifier, trim_geo_identifier,
    BlockData, BlockDescriptor, BlockTable, Container, Direction, GrowthState, VoxelVisibility,
};

fn block(namespace: &str, name: &str) -> BlockData {
    BlockData::new(namespace.to_string(), name.to_string())
}

fn descriptor(visibility: Option<VoxelVisibility>) -> BlockDescriptor {
    BlockDescriptor { visibility, has_direction: false, exclusive_direction: false }
}

#[test]
fn identifier_joins_namespace_and_name() {
    assert_eq!(name_to_identifier("vinox".to_string(), "air".to_string()), "vinox:air");
    assert_eq!(name_to_identifier(String::new(), String::new()), ":");
    assert_eq!(block("vinox", "stone").identifier(), "vinox:stone");
}

#[test]
fn identifier_splits_at_first_colon() {
    assert_eq!(
        identifier_to_name("vinox:air".to_string()),
        Some(("vinox".to_string(), "air".to_string()))
    );
    assert_eq!(
        identifier_to_name("a:b:c".to_string()),
        Some(("a".to_string(), "b:c".to_string()))
    );
    assert_eq!(identifier_to_name(":".to_string()), Some((String::new(), String::new())));
    assert_eq!(identifier_to_name("air".to_string()), None);
    assert_eq!(identifier_to_name(String::new()), None);
}

#[test]
fn just_name_is_after_first_colon() {
    assert_eq!(identifier_to_just_name("vinox:grass".to_string()), Some("grass".to_string()));
    assert_eq!(identifier_to_just_name("x:y:z".to_string()), Some("y:z".to_string()));
    assert_eq!(identifier_to_just_name("grass".to_string()), None);
}

#[test]
fn geo_identifier_drops_suffix_after_first_dot() {
    assert_eq!(trim_geo_identifier("water.divot".to_string()), "water");
    assert_eq!(trim_geo_identifier("a.b.c".to_string()), "a");
    assert_eq!(trim_geo_identifier("stone".to_string()), "stone");
    assert_eq!(trim_geo_identifier(".x".to_string()), "");
}

#[test]
fn direction_names() {
    assert_eq!(Direction::North.get_as_string(), "north");
    assert_eq!(Direction::West.get_as_string(), "west");
    assert_eq!(Direction::East.get_as_string(), "east");
    assert_eq!(Direction::South.get_as_string(), "south");
}

#[test]
fn default_block_is_air() {
    let air = BlockData::default();
    assert_eq!(air.namespace, "vinox");
    assert_eq!(air.name, "air");
    assert_eq!(air, block("vinox", "air"));
    assert_eq!(air.direction, None);
    assert_eq!(air.container, None);
}

#[test]
fn equality_compares_every_field() {
    let a = block("vinox", "chest");
    let mut b = block("vinox", "chest");
    assert_eq!(a, b);
    b.direction = Some(Direction::East);
    assert_ne!(a, b);
    let mut c = block("vinox", "chest");
    c.container = Some(Container { items: vec!["apple".to_string()], max_size: 4 });
    let mut d = c.clone();
    assert_eq!(c, d);
    d.container = Some(Container { items: vec!["pear".to_string()], max_size: 4 });
    assert_ne!(c, d);
    let mut e = block("vinox", "wheat");
    e.growth_state = Some(GrowthState::Ripe);
    e.last_tick = Some(7);
    e.arbitary_data = Some("x".to_string());
    e.top = Some(true);
    assert_eq!(e.clone(), e);
    let mut f = e.clone();
    f.top = Some(false);
    assert_ne!(e, f);
}

#[test]
fn block_table_lookup() {
    let mut table = BlockTable::new();
    assert_eq!(table.get("vinox:air"), None);
    table.insert("vinox:air".to_string(), descriptor(Some(VoxelVisibility::Empty)));
    table.insert("vinox:stone".to_string(), descriptor(Some(VoxelVisibility::Opaque)));
    assert_eq!(table.get("vinox:air"), Some(descriptor(Some(VoxelVisibility::Empty))));
    table.insert("vinox:stone".to_string(), descriptor(Some(VoxelVisibility::Transparent)));
    assert_eq!(table.get("vinox:stone"), Some(descriptor(Some(VoxelVisibility::Transparent))));
}

#[test]
fn emptiness_comes_from_the_table() {
    let mut table = BlockTable::new();
    table.insert("vinox:air".to_string(), descriptor(Some(VoxelVisibility::Empty)));
    table.insert("vinox:stone".to_string(), descriptor(Some(VoxelVisibility::Opaque)));
    table.insert("vinox:ghost".to_string(), descriptor(None));
    assert!(block("vinox", "air").is_empty(&table));
    assert!(!block("vinox", "stone").is_empty(&table));
    assert!(block("vinox", "ghost").is_empty(&table));
    assert_eq!(block("vinox", "ghost").visibility(&table), Some(VoxelVisibility::Empty));
    assert_eq!(block("vinox", "stone").visibility(&table), Some(VoxelVisibility::Opaque));
}

#[test]
fn unknown_block_is_reported_not_empty() {
    let table = BlockTable::new();
    assert_eq!(block("vinox", "mystery").visibility(&table), None);
    assert!(!block("vinox", "mystery").is_empty(&table));
}
