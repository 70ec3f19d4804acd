use lightseal::block::BlockState;
use lightseal::catalog::Catalog;
use lightseal::direction::Direction;
use lightseal::predicates::{can_move, can_see};
use lightseal::shape::{from_stairs_props, BlockShape};

fn some_blocks() -> Vec<BlockState> {
    vec![
        BlockState::air(),
        BlockState::new("minecraft:stone"),
        BlockState::new("minecraft:torch"),
        BlockState::new("minecraft:oak_slab").with("type", "top"),
        BlockState::new("minecraft:oak_slab").with("type", "bottom"),
        BlockState::new("minecraft:oak_slab").with("type", "double"),
        BlockState::new("minecraft:oak_stairs")
            .with("facing", "east")
            .with("half", "top")
            .with("shape", "inner_left"),
        BlockState::new("minecraft:oak_stairs")
            .with("facing", "south")
            .with("half", "bottom")
            .with("shape", "outer_right"),
    ]
}

#[test]
fn solid_blocks_neither_see_nor_move() {
    let catalog = Catalog::standard();
    for name in ["minecraft:stone", "minecraft:dirt", "minecraft:yellow_glazed_terracotta"] {
        let solid = BlockState::new(name);
        for dir in Direction::all() {
            assert!(!can_see(&solid, &dir, &catalog));
            for other in some_blocks() {
                assert!(!can_move(&solid, &other, &dir, &catalog));
                assert!(!can_move(&other, &solid, &dir, &catalog));
            }
        }
    }
}

#[test]
fn air_sees_everywhere_and_moves_where_the_neighbour_is_open() {
    let catalog = Catalog::standard();
    let air = BlockState::air();
    for dir in Direction::all() {
        assert!(can_see(&air, &dir, &catalog));
        assert!(can_move(&air, &air, &dir, &catalog));
        for other in some_blocks() {
            assert_eq!(
                can_move(&air, &other, &dir, &catalog),
                can_see(&other, &dir.opposite(), &catalog)
            );
        }
    }
    assert!(!can_move(&air, &BlockState::new("minecraft:stone"), &Direction::Up, &catalog));
}

#[test]
fn moving_is_symmetric() {
    let catalog = Catalog::standard();
    for a in some_blocks() {
        for b in some_blocks() {
            for dir in Direction::all() {
                assert_eq!(
                    can_move(&a, &b, &dir, &catalog),
                    can_move(&b, &a, &dir.opposite(), &catalog)
                );
                if can_move(&a, &b, &dir, &catalog) {
                    assert!(can_see(&a, &dir, &catalog));
                }
            }
        }
    }
}

#[test]
fn a_bottom_slab_beside_a_top_slab_is_seen_and_not_entered() {
    let catalog = Catalog::standard();
    let low = BlockState::new("minecraft:stone_slab").with("type", "bottom");
    let high = BlockState::new("minecraft:stone_slab").with("type", "top");
    for dir in [Direction::North, Direction::South, Direction::East, Direction::West] {
        assert!(can_see(&low, &dir, &catalog));
        assert!(!can_move(&low, &high, &dir, &catalog));
        assert!(can_see(&high, &dir, &catalog));
        assert!(!can_move(&high, &low, &dir, &catalog));
    }
}

#[test]
fn stacked_slabs_pass_or_block_by_their_touching_faces() {
    let catalog = Catalog::standard();
    let low = BlockState::new("minecraft:stone_slab").with("type", "bottom");
    let high = BlockState::new("minecraft:stone_slab").with("type", "top");
    assert!(can_see(&low, &Direction::Up, &catalog));
    assert!(can_move(&low, &high, &Direction::Up, &catalog));
    assert!(!can_see(&high, &Direction::Up, &catalog));
    assert!(!can_move(&high, &low, &Direction::Up, &catalog));
    assert!(!can_see(&low, &Direction::Down, &catalog));
    assert!(!can_move(&low, &high, &Direction::Down, &catalog));
}

#[test]
fn shapes_answer_like_their_blocks() {
    let stairs = from_stairs_props("straight", "bottom", "north");
    assert!(!stairs.open_towards(Direction::North));
    assert!(!stairs.open_towards(Direction::Down));
    assert!(stairs.open_towards(Direction::Up));
    assert!(stairs.open_towards(Direction::South));
    assert!(stairs.open_towards(Direction::East));
    let empty = BlockShape::empty();
    assert!(stairs.gap_towards(&empty, Direction::South));
    assert!(!stairs.gap_towards(&empty, Direction::North));
    let other = from_stairs_props("straight", "top", "south");
    assert!(!stairs.gap_towards(&other, Direction::East));
    assert!(stairs.gap_towards(&from_stairs_props("straight", "bottom", "north"), Direction::East));
}
