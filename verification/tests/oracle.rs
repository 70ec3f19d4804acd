use lightseal::block::BlockState;
use lightseal::catalog::Catalog;
use lightseal::direction::Direction;
use lightseal::output::optimize_region;
use lightseal::predicates::{can_move, can_see};
use lightseal::region::Region;
use lightseal::traversal::traverse;
use lightseal::vec3::Vec3;
use std::collections::{HashMap, HashSet, VecDeque};

struct Dice(u64);

impl Dice {
    fn roll(&mut self, sides: u64) -> u64 {
        self.0 = self.0.wrapping_mul(6364136223846793005).wrapping_add(1442695040888963407);
        (self.0 >> 33) % sides
    }
}

fn some_block(dice: &mut Dice) -> BlockState {
    let facing = ["north", "south", "east", "west"][dice.roll(4) as usize];
    let half = ["top", "bottom"][dice.roll(2) as usize];
    let shape =
        ["straight", "outer_left", "outer_right", "inner_left", "inner_right"][dice.roll(5) as usize];
    match dice.roll(10) {
        0..=3 => BlockState::air(),
        4..=5 => BlockState::new("minecraft:stone"),
        6 => BlockState::new("minecraft:torch"),
        7 => BlockState::new("minecraft:oak_slab").with("type", half),
        8 => BlockState::new("minecraft:oak_slab").with("type", "double"),
        _ => BlockState::new("minecraft:oak_stairs")
            .with("facing", facing)
            .with("half", half)
            .with("shape", shape),
    }
}

fn some_region(dice: &mut Dice) -> (Region, Vec3) {
    let sx = 1 + dice.roll(4) as i32;
    let sy = 1 + dice.roll(4) as i32;
    let sz = 1 + dice.roll(4) as i32;
    let min = Vec3::new(dice.roll(7) as i32 - 3, dice.roll(7) as i32 - 3, dice.roll(7) as i32 - 3);
    let max = Vec3::new(min.x + sx - 1, min.y + sy - 1, min.z + sz - 1);
    let mut region = Region::new("dice", min, max).unwrap();
    for x in min.x..=max.x {
        for y in min.y..=max.y {
            for z in min.z..=max.z {
                region.set_block(Vec3::new(x, y, z), some_block(dice));
            }
        }
    }
    let origin = Vec3::new(
        min.x + dice.roll(sx as u64) as i32,
        min.y + dice.roll(sy as u64) as i32,
        min.z + dice.roll(sz as u64) as i32,
    );
    (region, origin)
}

/// The traversal written down once more, with hash sets and without any
/// bookkeeping beyond what it needs.
fn walk(
    region: &Region,
    origin: Vec3,
    catalog: &Catalog,
) -> (HashSet<Vec3>, HashSet<Vec3>, HashMap<Vec3, usize>) {
    let b = region.bounds();
    let inside = |p: &Vec3| region.contains(p);
    let near = |p: &Vec3| {
        b.min.x - 1 <= p.x
            && p.x <= b.max.x + 1
            && b.min.y - 1 <= p.y
            && p.y <= b.max.y + 1
            && b.min.z - 1 <= p.z
            && p.z <= b.max.z + 1
    };
    let air = BlockState::air();
    let mut visited = HashSet::new();
    let mut lit = HashSet::new();
    let mut gens = HashMap::new();
    let mut queue = VecDeque::new();
    queue.push_back((origin, 0usize));
    visited.insert(origin);
    gens.insert(origin, 0);
    while let Some((pos, gen)) = queue.pop_front() {
        let current = if inside(&pos) { region.get_block(pos) } else { &air };
        for dir in Direction::all() {
            let next = pos + dir;
            if visited.contains(&next) {
                continue;
            }
            if !inside(&next) {
                if near(&next) {
                    queue.push_back((next, gen + 1));
                    visited.insert(next);
                    gens.insert(next, gen + 1);
                }
                continue;
            }
            let block = region.get_block(next);
            if can_see(current, &dir, catalog) && !block.is_air() {
                lit.insert(next);
            }
            if pos == origin || can_move(current, block, &dir, catalog) {
                queue.push_back((next, gen + 1));
                visited.insert(next);
                gens.insert(next, gen + 1);
            }
        }
    }
    (visited, lit, gens)
}

#[test]
fn the_traversal_agrees_with_a_plain_walk_on_many_regions() {
    let catalog = Catalog::standard();
    let mut dice = Dice(2024);
    for round in 0..300 {
        let (region, origin) = some_region(&mut dice);
        let (visited, lit, gens) = walk(&region, origin, &catalog);
        let found = traverse(&region, &catalog, origin, None).unwrap();
        assert!(found.leak.is_none());
        let b = region.bounds();
        for x in b.min.x - 2..=b.max.x + 2 {
            for y in b.min.y - 2..=b.max.y + 2 {
                for z in b.min.z - 2..=b.max.z + 2 {
                    let p = Vec3::new(x, y, z);
                    assert_eq!(found.visited.contains(&p), visited.contains(&p), "{} {:?}", round, p);
                    assert_eq!(found.reachable_blocks.contains(&p), lit.contains(&p), "{} {:?}", round, p);
                    if visited.contains(&p) {
                        assert_eq!(found.generations.get(&p), Some(gens[&p]), "{} {:?}", round, p);
                    }
                }
            }
        }
        let sealed = optimize_region(&region, origin, false, None, &catalog).unwrap();
        for i in 0..region.volume() {
            let p = b.position(i);
            if region.block(i).is_air() || lit.contains(&p) {
                assert_eq!(sealed.block(i), region.block(i));
            } else {
                assert_eq!(sealed.block(i), &BlockState::air());
            }
        }
        let again = optimize_region(&sealed, origin, false, None, &catalog).unwrap();
        assert_eq!(again, sealed, "round {}", round);
    }
}

#[test]
fn a_leak_is_found_exactly_where_the_plain_walk_gets_to_the_target() {
    let catalog = Catalog::standard();
    let mut dice = Dice(7);
    let mut leaks = 0;
    for round in 0..200 {
        let (region, origin) = some_region(&mut dice);
        let b = region.bounds();
        let target = b.position(dice.roll(region.volume() as u64) as usize);
        let (visited, _, gens) = walk(&region, origin, &catalog);
        let found = traverse(&region, &catalog, origin, Some(target)).unwrap();
        let expected = target != origin && visited.contains(&target);
        assert_eq!(found.leak.is_some(), expected, "round {}", round);
        if let Some(path) = &found.leak {
            leaks += 1;
            assert_eq!(path[0], target);
            assert_eq!(path[path.len() - 1], origin);
            assert_eq!(path.len(), gens[&target] + 1);
            for i in 0..path.len() {
                assert_eq!(gens[&path[i]], gens[&target] - i);
            }
            let marked = optimize_region(&region, origin, false, Some(target), &catalog).unwrap();
            for i in 0..region.volume() {
                let p = b.position(i);
                if p != origin && path.contains(&p) {
                    assert_eq!(marked.block(i), &BlockState::new("minecraft:red_wool"));
                } else {
                    assert_eq!(marked.block(i), region.block(i));
                }
            }
        }
    }
    assert!(leaks > 20);
}
