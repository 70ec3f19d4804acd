use lightseal::block::BlockState;
use lightseal::catalog::Catalog;
use lightseal::error::Error;
use lightseal::region::Region;
use lightseal::traversal::{traverse, Node};
use lightseal::vec3::Vec3;

fn filled(min: i32, max: i32, name: &str) -> Region {
    let mut region = Region::new("box", Vec3::new(min, min, min), Vec3::new(max, max, max)).unwrap();
    for x in min..=max {
        for y in min..=max {
            for z in min..=max {
                region.set_block(Vec3::new(x, y, z), BlockState::new(name));
            }
        }
    }
    region
}

/// A region of 7 x 7 x 7: air around a hollow stone shell of 5 x 5 x 5.
fn shell() -> Region {
    let mut region = filled(0, 6, "minecraft:air");
    for x in 1..=5 {
        for y in 1..=5 {
            for z in 1..=5 {
                let far = (x - 3i32).abs().max((y - 3i32).abs()).max((z - 3i32).abs());
                if far == 2 {
                    region.set_block(Vec3::new(x, y, z), BlockState::new("minecraft:stone"));
                }
            }
        }
    }
    region
}

fn adjacent(a: Vec3, b: Vec3) -> bool {
    (a.x - b.x).abs() + (a.y - b.y).abs() + (a.z - b.z).abs() == 1
}

#[test]
fn a_node_is_a_position_with_its_generation() {
    let node = Node { pos: Vec3::new(1, 2, 3), gen: 4 };
    assert_eq!(node.pos, Vec3::new(1, 2, 3));
    assert_eq!(node.gen, 4);
}

#[test]
fn origin_outside_the_region_is_refused() {
    let region = filled(0, 2, "minecraft:stone");
    let r = traverse(&region, &Catalog::standard(), Vec3::new(3, 1, 1), None);
    assert_eq!(r.err(), Some(Error::OutOfBoundsAccess));
    let r = traverse(&region, &Catalog::standard(), Vec3::new(-1, 0, 0), Some(Vec3::new(1, 1, 1)));
    assert_eq!(r.err(), Some(Error::OutOfBoundsAccess));
}

#[test]
fn solid_cube_of_five_lights_the_six_neighbours_only() {
    let mut region = filled(0, 4, "minecraft:stone");
    let origin = Vec3::new(2, 2, 2);
    region.set_block(origin, BlockState::air());
    let t = traverse(&region, &Catalog::standard(), origin, None).unwrap();
    assert!(t.leak.is_none());
    let mut visited = 0;
    let mut lit = 0;
    for x in -1..=5 {
        for y in -1..=5 {
            for z in -1..=5 {
                let p = Vec3::new(x, y, z);
                let d = (x - 2).abs() + (y - 2).abs() + (z - 2).abs();
                assert_eq!(t.visited.contains(&p), d <= 1, "visited {:?}", p);
                assert_eq!(t.reachable_blocks.contains(&p), d == 1, "lit {:?}", p);
                if t.visited.contains(&p) {
                    visited += 1;
                    assert_eq!(t.generations.get(&p), Some(d as usize));
                }
                if t.reachable_blocks.contains(&p) {
                    lit += 1;
                }
            }
        }
    }
    assert_eq!(visited, 7);
    assert_eq!(lit, 6);
}

#[test]
fn solid_cube_of_three_leaks_through_the_entered_neighbours_into_the_padding() {
    let mut region = filled(0, 2, "minecraft:stone");
    let origin = Vec3::new(1, 1, 1);
    region.set_block(origin, BlockState::air());
    let t = traverse(&region, &Catalog::standard(), origin, None).unwrap();
    assert!(t.leak.is_none());
    for x in -1..=3 {
        for y in -1..=3 {
            for z in -1..=3 {
                let p = Vec3::new(x, y, z);
                let inside = (0..=2).contains(&x) && (0..=2).contains(&y) && (0..=2).contains(&z);
                let d = (x - 1).abs() + (y - 1).abs() + (z - 1).abs();
                if inside {
                    assert_eq!(t.visited.contains(&p), d <= 1, "visited {:?}", p);
                    assert_eq!(t.reachable_blocks.contains(&p), d >= 1, "lit {:?}", p);
                } else {
                    assert!(t.visited.contains(&p), "padding {:?}", p);
                    assert!(!t.reachable_blocks.contains(&p));
                }
            }
        }
    }
    assert_eq!(t.generations.get(&Vec3::new(1, 1, -1)), Some(2));
    assert_eq!(t.generations.get(&Vec3::new(-1, -1, -1)), Some(6));
    assert_eq!(t.generations.get(&Vec3::new(4, 1, 1)), None);
}

#[test]
fn a_closed_cube_reports_no_leak_to_a_block_that_is_not_entered() {
    let mut region = filled(0, 4, "minecraft:stone");
    let origin = Vec3::new(2, 2, 2);
    region.set_block(origin, BlockState::air());
    for target in [Vec3::new(0, 0, 0), Vec3::new(2, 2, 0), Vec3::new(1, 2, 1), Vec3::new(4, 4, 4)] {
        let t = traverse(&region, &Catalog::standard(), origin, Some(target)).unwrap();
        assert!(t.leak.is_none(), "{:?}", target);
        assert!(!t.visited.contains(&target));
    }
}

#[test]
fn the_origin_enters_its_neighbours_whatever_they_are() {
    let mut region = filled(0, 4, "minecraft:stone");
    let origin = Vec3::new(2, 2, 2);
    region.set_block(origin, BlockState::air());
    let target = Vec3::new(2, 3, 2);
    let t = traverse(&region, &Catalog::standard(), origin, Some(target)).unwrap();
    assert_eq!(t.leak, Some(vec![target, origin]));
}

#[test]
fn the_origin_and_the_padding_are_no_leak() {
    let region = filled(0, 2, "minecraft:air");
    let origin = Vec3::new(1, 1, 1);
    let t = traverse(&region, &Catalog::standard(), origin, Some(origin)).unwrap();
    assert!(t.leak.is_none());
    let t = traverse(&region, &Catalog::standard(), origin, Some(Vec3::new(1, 3, 1))).unwrap();
    assert!(t.leak.is_none());
    assert!(t.visited.contains(&Vec3::new(1, 3, 1)));
}

#[test]
fn a_closed_shell_keeps_its_inside_dark() {
    let region = shell();
    let origin = Vec3::new(0, 0, 0);
    let target = Vec3::new(3, 3, 3);
    let t = traverse(&region, &Catalog::standard(), origin, Some(target)).unwrap();
    assert!(t.leak.is_none());
    for x in 2..=4 {
        for y in 2..=4 {
            for z in 2..=4 {
                assert!(!t.visited.contains(&Vec3::new(x, y, z)));
                assert_eq!(t.tints.get(&Vec3::new(x, y, z)), Some(None));
            }
        }
    }
    for x in 1..=5 {
        for y in 1..=5 {
            for z in 1..=5 {
                let far = (x - 3i32).abs().max((y - 3i32).abs()).max((z - 3i32).abs());
                let p = Vec3::new(x, y, z);
                assert_eq!(t.reachable_blocks.contains(&p), far == 2);
                assert!(!t.visited.contains(&p));
            }
        }
    }
    assert!(t.visited.contains(&Vec3::new(6, 6, 6)));
    assert_eq!(t.generations.get(&Vec3::new(6, 6, 6)), Some(18));
}

#[test]
fn a_gap_in_the_shell_is_a_leak_with_a_trace_back_to_the_origin() {
    let mut region = shell();
    region.set_block(Vec3::new(3, 3, 1), BlockState::air());
    let origin = Vec3::new(0, 0, 0);
    let target = Vec3::new(3, 3, 3);
    let t = traverse(&region, &Catalog::standard(), origin, Some(target)).unwrap();
    let path = t.leak.clone().expect("the signal gets in");
    assert_eq!(path.first(), Some(&target));
    assert_eq!(path.last(), Some(&origin));
    assert_eq!(path.len(), 10);
    assert_eq!(t.generations.get(&target), Some(9));
    for pair in path.windows(2) {
        assert!(adjacent(pair[0], pair[1]), "{:?}", pair);
    }
    for i in 0..path.len() {
        for j in 0..i {
            assert_ne!(path[i], path[j]);
        }
        assert_eq!(t.generations.get(&path[i]), Some(9 - i));
        assert!(t.visited.contains(&path[i]));
    }
    assert_eq!(path[1], Vec3::new(3, 3, 2));
    assert_eq!(path[2], Vec3::new(3, 3, 1));
    assert_eq!(path[3], Vec3::new(3, 3, 0));
}

#[test]
fn a_trace_may_lead_through_the_padding() {
    let mut region = filled(0, 2, "minecraft:stone");
    let origin = Vec3::new(0, 0, 0);
    let target = Vec3::new(2, 2, 2);
    region.set_block(origin, BlockState::new("minecraft:blue_wool"));
    region.set_block(target, BlockState::air());
    let t = traverse(&region, &Catalog::standard(), origin, Some(target)).unwrap();
    let path = t.leak.expect("the signal gets in from outside");
    assert_eq!(path.first(), Some(&target));
    assert_eq!(path.last(), Some(&origin));
    for pair in path.windows(2) {
        assert!(adjacent(pair[0], pair[1]), "{:?}", pair);
    }
    assert!(path.iter().any(|p| !region.contains(p)));
    assert_eq!(path.len(), 11);
}

#[test]
fn without_a_target_the_traversal_runs_to_its_end() {
    let mut region = shell();
    region.set_block(Vec3::new(3, 3, 1), BlockState::air());
    let t = traverse(&region, &Catalog::standard(), Vec3::new(0, 0, 0), None).unwrap();
    assert!(t.leak.is_none());
    for x in 2..=4 {
        for y in 2..=4 {
            for z in 2..=4 {
                assert!(t.visited.contains(&Vec3::new(x, y, z)));
            }
        }
    }
    assert_eq!(t.generations.get(&Vec3::new(3, 3, 3)), Some(9));
    assert_eq!(t.generations.get(&Vec3::new(4, 4, 4)), Some(12));
    assert_eq!(t.tints.get(&Vec3::new(3, 3, 3)), Some(Some(8)));
    assert_eq!(t.tints.get(&Vec3::new(0, 0, 0)), Some(None));
    assert_eq!(t.tints.get(&Vec3::new(-1, 0, 0)), Some(None));
    assert_eq!(t.tints.get(&Vec3::new(1, 0, 0)), Some(Some(0)));
}

#[test]
fn slabs_let_the_signal_by_where_their_empty_halves_meet() {
    let mut region = Region::new("row", Vec3::new(0, 0, 0), Vec3::new(6, 4, 4)).unwrap();
    for x in 0..=6 {
        for y in 0..=4 {
            for z in 0..=4 {
                region.set_block(Vec3::new(x, y, z), BlockState::new("minecraft:stone"));
            }
        }
    }
    let low = BlockState::new("minecraft:stone_slab").with("type", "bottom");
    let high = BlockState::new("minecraft:stone_slab").with("type", "top");
    let origin = Vec3::new(2, 2, 2);
    region.set_block(origin, BlockState::air());
    region.set_block(Vec3::new(3, 2, 2), low);
    region.set_block(Vec3::new(4, 2, 2), high);
    let t = traverse(&region, &Catalog::standard(), origin, None).unwrap();
    assert!(t.visited.contains(&Vec3::new(3, 2, 2)));
    assert!(t.reachable_blocks.contains(&Vec3::new(3, 2, 2)));
    assert!(!t.visited.contains(&Vec3::new(4, 2, 2)));
    assert!(t.reachable_blocks.contains(&Vec3::new(4, 2, 2)));
    assert!(t.reachable_blocks.contains(&Vec3::new(3, 3, 2)));
    assert!(t.reachable_blocks.contains(&Vec3::new(3, 2, 1)));
    assert!(t.reachable_blocks.contains(&Vec3::new(3, 2, 3)));
    assert!(!t.reachable_blocks.contains(&Vec3::new(3, 1, 2)));
    assert!(!t.reachable_blocks.contains(&Vec3::new(4, 3, 2)));
    assert!(!t.reachable_blocks.contains(&Vec3::new(5, 2, 2)));
    let mut lit = 0;
    let mut visited = 0;
    for x in -1..=7 {
        for y in -1..=5 {
            for z in -1..=5 {
                if t.reachable_blocks.contains(&Vec3::new(x, y, z)) {
                    lit += 1;
                }
                if t.visited.contains(&Vec3::new(x, y, z)) {
                    visited += 1;
                }
            }
        }
    }
    assert_eq!(lit, 10);
    assert_eq!(visited, 7);
}
