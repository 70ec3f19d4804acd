use lightseal::block::BlockState;
use lightseal::catalog::Catalog;
use lightseal::error::Error;
use lightseal::output::optimize_region;
use lightseal::palette::{marker_block, rainbow_block, MARKER};
use lightseal::region::Region;
use lightseal::traversal::traverse;
use lightseal::vec3::Vec3;

fn cube(min: i32, max: i32, name: &str) -> Region {
    let mut region = Region::new("cube", Vec3::new(min, min, min), Vec3::new(max, max, max)).unwrap();
    for x in min..=max {
        for y in min..=max {
            for z in min..=max {
                region.set_block(Vec3::new(x, y, z), BlockState::new(name));
            }
        }
    }
    region
}

fn hollow() -> Region {
    let mut region = cube(0, 6, "minecraft:air");
    for x in 1..=5 {
        for y in 1..=5 {
            for z in 1..=5 {
                let far = (x - 3i32).abs().max((y - 3i32).abs()).max((z - 3i32).abs());
                if far == 2 {
                    region.set_block(Vec3::new(x, y, z), BlockState::new("minecraft:stone"));
                }
            }
        }
    }
    region
}

fn count(region: &Region, name: &str) -> usize {
    (0..region.volume()).filter(|i| region.block(*i).name == name).count()
}

#[test]
fn the_palette_cycles_through_sixteen_colours() {
    let names = [
        "minecraft:red_wool",
        "minecraft:red_concrete",
        "minecraft:orange_wool",
        "minecraft:orange_concrete",
        "minecraft:yellow_wool",
        "minecraft:yellow_concrete",
        "minecraft:lime_wool",
        "minecraft:lime_concrete",
        "minecraft:cyan_wool",
        "minecraft:cyan_concrete",
        "minecraft:light_blue_wool",
        "minecraft:light_blue_concrete",
        "minecraft:blue_wool",
        "minecraft:blue_concrete",
        "minecraft:purple_wool",
        "minecraft:purple_concrete",
    ];
    for gen in 0..40usize {
        assert_eq!(rainbow_block(gen), BlockState::new(names[gen % 16]));
    }
    assert_eq!(rainbow_block(usize::MAX), BlockState::new("minecraft:purple_concrete"));
    assert_eq!(MARKER, "minecraft:red_wool");
    assert_eq!(marker_block(), BlockState::new("minecraft:red_wool"));
}

#[test]
fn an_origin_outside_the_region_is_an_error() {
    let region = cube(0, 2, "minecraft:stone");
    let catalog = Catalog::standard();
    assert_eq!(
        optimize_region(&region, Vec3::new(0, 3, 0), false, None, &catalog),
        Err(Error::OutOfBoundsAccess)
    );
    assert_eq!(
        optimize_region(&region, Vec3::new(0, 0, -1), true, Some(Vec3::new(1, 1, 1)), &catalog),
        Err(Error::OutOfBoundsAccess)
    );
}

#[test]
fn a_solid_cube_of_five_keeps_the_six_blocks_around_the_origin() {
    let mut region = cube(0, 4, "minecraft:stone");
    let origin = Vec3::new(2, 2, 2);
    region.set_block(origin, BlockState::air());
    let out = optimize_region(&region, origin, false, None, &Catalog::standard()).unwrap();
    assert_eq!(out.bounds(), region.bounds());
    assert_eq!(out.name(), "cube");
    for x in 0..=4 {
        for y in 0..=4 {
            for z in 0..=4 {
                let p = Vec3::new(x, y, z);
                let d = (x - 2).abs() + (y - 2).abs() + (z - 2).abs();
                if d == 1 {
                    assert_eq!(out.get_block(p), &BlockState::new("minecraft:stone"));
                } else {
                    assert_eq!(out.get_block(p), &BlockState::air());
                }
            }
        }
    }
    assert_eq!(count(&out, "minecraft:stone"), 6);
    assert_eq!(count(&out, "minecraft:air"), 119);
}

#[test]
fn a_solid_cube_of_three_is_lit_from_outside_and_stays() {
    let mut region = cube(0, 2, "minecraft:stone");
    let origin = Vec3::new(1, 1, 1);
    region.set_block(origin, BlockState::air());
    let out = optimize_region(&region, origin, false, None, &Catalog::standard()).unwrap();
    assert_eq!(out, region);
    assert_eq!(count(&out, "minecraft:stone"), 26);
}

#[test]
fn the_block_at_the_origin_is_removed() {
    let mut region = cube(0, 4, "minecraft:stone");
    let origin = Vec3::new(2, 2, 2);
    region.set_block(origin, BlockState::new("minecraft:blue_wool"));
    let out = optimize_region(&region, origin, false, None, &Catalog::standard()).unwrap();
    assert_eq!(out.get_block(origin), &BlockState::air());
    assert_eq!(count(&out, "minecraft:stone"), 6);
}

#[test]
fn a_solid_origin_lights_nothing_around_it() {
    let mut region = cube(0, 4, "minecraft:stone");
    let origin = Vec3::new(2, 2, 2);
    region.set_block(Vec3::new(2, 3, 2), BlockState::new("minecraft:torch"));
    let out = optimize_region(&region, origin, false, None, &Catalog::standard()).unwrap();
    assert_eq!(out.get_block(origin), &BlockState::air());
    assert_eq!(out.get_block(Vec3::new(2, 3, 2)), &BlockState::air());
    assert_eq!(out.get_block(Vec3::new(2, 1, 2)), &BlockState::air());
    assert_eq!(out.get_block(Vec3::new(2, 4, 2)), &BlockState::new("minecraft:stone"));
    assert_eq!(out.get_block(Vec3::new(1, 3, 2)), &BlockState::new("minecraft:stone"));
}

#[test]
fn pruning_a_pruned_region_changes_nothing() {
    let mut region = cube(0, 6, "minecraft:stone");
    let origin = Vec3::new(3, 3, 3);
    region.set_block(origin, BlockState::new("minecraft:blue_wool"));
    region.set_block(Vec3::new(3, 4, 3), BlockState::air());
    region.set_block(Vec3::new(3, 5, 3), BlockState::new("minecraft:oak_slab").with("type", "top"));
    region.set_block(Vec3::new(4, 4, 3), BlockState::new("minecraft:oak_slab").with("type", "bottom"));
    region.set_block(
        Vec3::new(2, 4, 3),
        BlockState::new("minecraft:oak_stairs")
            .with("facing", "west")
            .with("half", "bottom")
            .with("shape", "straight"),
    );
    let catalog = Catalog::standard();
    let once = optimize_region(&region, origin, false, None, &catalog).unwrap();
    assert_ne!(once, region);
    let twice = optimize_region(&once, origin, false, None, &catalog).unwrap();
    assert_eq!(twice, once);
    let hollow = hollow();
    let once = optimize_region(&hollow, Vec3::new(0, 0, 0), false, None, &catalog).unwrap();
    let twice = optimize_region(&once, Vec3::new(0, 0, 0), false, None, &catalog).unwrap();
    assert_eq!(twice, once);
}

#[test]
fn a_closed_shell_is_kept_whole() {
    let region = hollow();
    let catalog = Catalog::standard();
    let out = optimize_region(&region, Vec3::new(0, 0, 0), false, Some(Vec3::new(3, 3, 3)), &catalog)
        .unwrap();
    assert_eq!(out, region);
    assert_eq!(count(&out, "minecraft:stone"), 98);
    assert_eq!(count(&out, MARKER), 0);
}

#[test]
fn blocks_inside_a_closed_shell_are_removed() {
    let mut region = hollow();
    region.set_block(Vec3::new(3, 3, 3), BlockState::new("minecraft:stone"));
    region.set_block(Vec3::new(3, 2, 3), BlockState::new("minecraft:torch"));
    let out =
        optimize_region(&region, Vec3::new(0, 0, 0), false, None, &Catalog::standard()).unwrap();
    assert_eq!(out, hollow());
}

#[test]
fn a_leak_is_marked_from_the_target_to_the_block_after_the_origin() {
    let mut region = hollow();
    region.set_block(Vec3::new(3, 3, 1), BlockState::air());
    let origin = Vec3::new(0, 0, 0);
    let target = Vec3::new(3, 3, 3);
    let out = optimize_region(&region, origin, false, Some(target), &Catalog::standard()).unwrap();
    assert_eq!(count(&out, MARKER), 9);
    assert_eq!(count(&out, "minecraft:stone"), 97);
    assert_eq!(out.get_block(target), &marker_block());
    assert_eq!(out.get_block(Vec3::new(3, 3, 2)), &marker_block());
    assert_eq!(out.get_block(Vec3::new(3, 3, 1)), &marker_block());
    assert_eq!(out.get_block(Vec3::new(3, 3, 0)), &marker_block());
    assert_eq!(out.get_block(origin), &BlockState::air());
    for i in 0..out.volume() {
        if out.block(i) != &marker_block() {
            assert_eq!(out.block(i), region.block(i));
        }
    }
}

#[test]
fn a_leak_through_the_padding_marks_the_blocks_of_the_region_only() {
    let mut region = cube(0, 2, "minecraft:stone");
    let origin = Vec3::new(0, 0, 0);
    let target = Vec3::new(2, 2, 2);
    region.set_block(origin, BlockState::new("minecraft:blue_wool"));
    region.set_block(target, BlockState::air());
    let catalog = Catalog::standard();
    let out = optimize_region(&region, origin, false, Some(target), &catalog).unwrap();
    let path = traverse(&region, &catalog, origin, Some(target)).unwrap().leak.unwrap();
    assert_eq!(out.bounds(), region.bounds());
    assert_eq!(out.volume(), 27);
    assert_eq!(out.get_block(target), &marker_block());
    assert_eq!(out.get_block(origin), &BlockState::new("minecraft:blue_wool"));
    let mut marked = 0;
    for x in 0..=2 {
        for y in 0..=2 {
            for z in 0..=2 {
                let p = Vec3::new(x, y, z);
                if p != origin && path.contains(&p) {
                    assert_eq!(out.get_block(p), &marker_block());
                    marked += 1;
                } else {
                    assert_eq!(out.get_block(p), region.get_block(p));
                }
            }
        }
    }
    assert_eq!(count(&out, MARKER), marked);
    assert!(path.len() > marked + 1);
}

#[test]
fn the_rainbow_colours_the_air_by_generation() {
    let region = Region::new("row", Vec3::new(0, 0, 0), Vec3::new(4, 0, 0)).unwrap();
    let out =
        optimize_region(&region, Vec3::new(0, 0, 0), true, None, &Catalog::standard()).unwrap();
    assert_eq!(out.get_block(Vec3::new(0, 0, 0)), &BlockState::air());
    assert_eq!(out.get_block(Vec3::new(1, 0, 0)), &BlockState::new("minecraft:red_wool"));
    assert_eq!(out.get_block(Vec3::new(2, 0, 0)), &BlockState::new("minecraft:red_concrete"));
    assert_eq!(out.get_block(Vec3::new(3, 0, 0)), &BlockState::new("minecraft:orange_wool"));
    assert_eq!(out.get_block(Vec3::new(4, 0, 0)), &BlockState::new("minecraft:orange_concrete"));
    let plain =
        optimize_region(&region, Vec3::new(0, 0, 0), false, None, &Catalog::standard()).unwrap();
    assert_eq!(plain, region);
}

#[test]
fn the_rainbow_colours_air_that_is_looked_at_and_never_entered() {
    let mut region = cube(0, 2, "minecraft:stone");
    let origin = Vec3::new(0, 2, 0);
    let pocket = Vec3::new(1, 1, 1);
    let lid = Vec3::new(1, 2, 1);
    region.set_block(origin, BlockState::air());
    region.set_block(pocket, BlockState::air());
    region.set_block(lid, BlockState::new("minecraft:stone_slab").with("type", "bottom"));
    let catalog = Catalog::standard();
    let out = optimize_region(&region, origin, true, None, &catalog).unwrap();
    assert_eq!(out.get_block(pocket), &BlockState::new("minecraft:yellow_wool"));
    assert_eq!(out.get_block(origin), &BlockState::air());
    assert_eq!(out.get_block(lid), region.get_block(lid));
    let plain = optimize_region(&region, origin, false, None, &catalog).unwrap();
    assert_eq!(plain.get_block(pocket), &BlockState::air());
}

#[test]
fn the_rainbow_and_a_leak_show_together() {
    let mut region = hollow();
    region.set_block(Vec3::new(3, 3, 1), BlockState::air());
    let origin = Vec3::new(0, 0, 0);
    let target = Vec3::new(3, 3, 3);
    let out = optimize_region(&region, origin, true, Some(target), &Catalog::standard()).unwrap();
    assert_eq!(out.get_block(target), &marker_block());
    assert_eq!(out.get_block(Vec3::new(3, 3, 2)), &marker_block());
    assert_eq!(out.get_block(origin), &BlockState::air());
    assert_eq!(count(&out, "minecraft:stone"), 97);
    for i in 0..out.volume() {
        if !region.block(i).is_air() {
            assert_eq!(out.block(i), region.block(i));
        } else {
            assert!(
                out.block(i).is_air() || (0..16).any(|g| out.block(i) == &rainbow_block(g)),
                "{:?}",
                out.block(i)
            );
        }
    }
}
