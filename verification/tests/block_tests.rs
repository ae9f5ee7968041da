use voxel_sandbox::block::{decode, placeable_blocks, BlockRegistry, BlockType};

const ALL: [BlockType; 11] = [
    BlockType::Air,
    BlockType::Stone,
    BlockType::Dirt,
    BlockType::Grass,
    BlockType::Sand,
    BlockType::Wood,
    BlockType::Leaves,
    BlockType::Cobblestone,
    BlockType::Planks,
    BlockType::Glass,
    BlockType::Bedrock,
];

#[test]
fn air_is_air_and_not_solid() {
    assert!(BlockType::Air.is_air());
    assert!(!BlockType::Air.is_solid());
    assert!(!BlockType::Stone.is_air());
    assert!(BlockType::Stone.is_solid());
    assert!(BlockType::Glass.is_solid());
}

#[test]
fn transparency_of_each_kind() {
    for b in ALL {
        let expected = matches!(b, BlockType::Air | BlockType::Glass | BlockType::Leaves);
        assert_eq!(b.is_transparent(), expected, "{:?}", b);
    }
}

#[test]
fn display_names() {
    let names = [
        "Air", "Stone", "Dirt", "Grass", "Sand", "Wood", "Leaves", "Cobblestone", "Planks", "Glass", "Bedrock",
    ];
    for (b, n) in ALL.iter().zip(names.iter()) {
        assert_eq!(b.display_name(), *n);
    }
}

#[test]
fn codes_round_trip() {
    for (i, b) in ALL.iter().enumerate() {
        assert_eq!(b.to_u8(), i as u8);
        assert_eq!(BlockType::try_from(i as u8), Ok(*b));
        assert_eq!(decode(i as u8), *b);
    }
}

#[test]
fn unknown_code_is_error_and_reads_as_air() {
    assert_eq!(BlockType::try_from(11u8), Err(()));
    assert_eq!(BlockType::try_from(255u8), Err(()));
    assert_eq!(decode(11), BlockType::Air);
    assert_eq!(decode(200), BlockType::Air);
}

#[test]
fn collidable_kinds() {
    let reg = BlockRegistry::new();
    assert!(!reg.is_collidable(BlockType::Air));
    assert!(!reg.is_collidable(BlockType::Leaves));
    assert!(!reg.is_collidable(BlockType::Glass));
    assert!(reg.is_collidable(BlockType::Stone));
    assert!(reg.is_collidable(BlockType::Sand));
    assert!(BlockRegistry::default().is_collidable(BlockType::Bedrock));
}

#[test]
fn placeable_kinds_exclude_air_and_bedrock() {
    let p = placeable_blocks();
    assert_eq!(p.len(), 9);
    assert_eq!(p[0], BlockType::Stone);
    assert_eq!(p[8], BlockType::Glass);
    assert!(!p.contains(&BlockType::Air));
    assert!(!p.contains(&BlockType::Bedrock));
}
