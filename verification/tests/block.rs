use voxel_world::block::{Block, BlockConfig, BlockRegistry};

#[test]
fn block_air_is_invisible_and_transparent() {
    let air = Block::from_id("air");
    assert!(air.is_air());
    assert!(air.is_invisible());
    assert!(air.is_transparent());
    assert_eq!(air, Block::air());
}

#[test]
fn block_solid_kinds_are_opaque() {
    for name in ["brick_stone", "stone_diamond", "furnace", "stone_gravel", "dirt_grass",
        "wood_red", "stone_coal_alt", "dirt_gravel", "dirt", "wood", "stone_coal"] {
        let b = Block::from_id(name);
        assert!(!b.is_transparent(), "{name} should be opaque");
        assert!(!b.is_invisible());
        assert!(!b.is_air());
    }
}

#[test]
fn block_see_through_kinds_are_transparent() {
    for name in ["rails_straight_wood", "rails_curve", "mushroom_tan", "rails_curve_wood",
        "mushroom_red", "grass_large"] {
        let b = Block::from_id(name);
        assert!(b.is_transparent(), "{name} should be transparent");
        assert!(!b.is_invisible());
    }
}

#[test]
fn block_equality_is_by_id() {
    assert_eq!(Block::from_id("dirt"), Block::from_id("dirt"));
    assert_ne!(Block::from_id("dirt"), Block::from_id("wood"));
}

#[test]
fn block_texture_positions_match_the_table() {
    let dirt = Block::from_id("dirt");
    for side in 0..6 {
        assert_eq!(dirt.texture_pos(side), (5, 1));
    }
    let grass = Block::from_id("dirt_grass");
    assert_eq!(grass.texture_pos(0), (5, 0));
    assert_eq!(grass.texture_pos(1), (5, 0));
    assert_eq!(grass.texture_pos(2), (5, 0));
    assert_eq!(grass.texture_pos(3), (5, 0));
    assert_eq!(grass.texture_pos(4), (4, 6));
    assert_eq!(grass.texture_pos(5), (5, 1));
    let furnace = Block::from_id("furnace");
    assert_eq!(furnace.texture_pos(0), (3, 0));
    assert_eq!(furnace.texture_pos(4), (2, 5));
    assert_eq!(furnace.texture_pos(5), (2, 5));
    let wood = Block::from_id("wood");
    assert_eq!(wood.texture_pos(2), (0, 2));
}

#[test]
fn registry_lookup_by_name_finds_every_kind() {
    let registry = BlockRegistry::new();
    for name in ["air", "brick_stone", "rails_straight_wood", "stone_diamond", "furnace",
        "stone_gravel", "dirt_grass", "wood_red", "rails_curve", "stone_coal_alt",
        "mushroom_tan", "dirt_gravel", "dirt", "wood", "rails_curve_wood", "stone_coal",
        "mushroom_red", "grass_large"] {
        let b = registry.lookup_by_name(name);
        assert_eq!(b, Block::from_id(name));
    }
}

#[test]
fn registry_lookup_by_id_is_total_over_produced_blocks() {
    let registry = BlockRegistry::new();
    let grass = registry.lookup_by_name("dirt_grass");
    let config = registry.lookup_by_id(grass);
    assert_eq!(config.name, "dirt_grass");
    assert!(!config.is_invisible);
    assert!(!config.is_transparent);
    assert_eq!(config.textures, [(5, 0), (5, 0), (5, 0), (5, 0), (4, 6), (5, 1)]);
    let air = registry.lookup_by_id(Block::air());
    assert_eq!(air.name, "air");
    assert!(air.is_invisible);
    assert!(air.is_transparent);
}

#[test]
fn registry_lookup_of_unknown_name_fails() {
    let registry = BlockRegistry::new();
    assert!(registry.try_lookup_by_name("stone").is_none());
    assert!(registry.try_lookup_by_name("").is_none());
    assert!(registry.try_lookup_by_name("dirt ").is_none());
    assert!(registry.try_lookup_by_name("dirt").is_some());
}

#[test]
fn block_config_constructors() {
    let c = BlockConfig::new("wood", false, BlockConfig::texture_all((0, 2)));
    assert_eq!(c.name, "wood");
    assert!(!c.is_invisible);
    assert!(!c.is_transparent);
    assert_eq!(c.textures, [(0, 2); 6]);

    let inv = BlockConfig::invisible("air");
    assert_eq!(inv.name, "air");
    assert!(inv.is_invisible);
    assert!(inv.is_transparent);

    let sides = BlockConfig::texture_sides((4, 6), (5, 0), (5, 1));
    assert_eq!(sides, [(5, 0), (5, 0), (5, 0), (5, 0), (4, 6), (5, 1)]);
}
