use lightseal::block::BlockState;
use lightseal::catalog::Catalog;
use lightseal::commands::{find_origin, optimize, replace, REPLACED};
use lightseal::error::Error;
use lightseal::materials::{by_count, material_key, materials};
use lightseal::output::optimize_region;
use lightseal::region::Region;
use lightseal::vec3::Vec3;

fn block_of(min: i32, max: i32, name: &str) -> Region {
    let mut region = Region::new("part", Vec3::new(min, min, min), Vec3::new(max, max, max)).unwrap();
    for x in min..=max {
        for y in min..=max {
            for z in min..=max {
                region.set_block(Vec3::new(x, y, z), BlockState::new(name));
            }
        }
    }
    region
}

#[test]
fn the_origin_is_the_last_block_of_its_type() {
    let mut region = block_of(0, 2, "minecraft:stone");
    assert_eq!(find_origin(&region, "minecraft:blue_wool"), None);
    region.set_block(Vec3::new(1, 0, 2), BlockState::new("minecraft:blue_wool"));
    assert_eq!(find_origin(&region, "minecraft:blue_wool"), Some(Vec3::new(1, 0, 2)));
    region.set_block(Vec3::new(2, 0, 0), BlockState::new("minecraft:blue_wool"));
    assert_eq!(find_origin(&region, "minecraft:blue_wool"), Some(Vec3::new(1, 0, 2)));
    region.set_block(Vec3::new(0, 1, 0), BlockState::new("minecraft:blue_wool"));
    assert_eq!(find_origin(&region, "minecraft:blue_wool"), Some(Vec3::new(0, 1, 0)));
    assert_eq!(find_origin(&region, "minecraft:stone"), Some(Vec3::new(2, 2, 2)));
    assert_eq!(find_origin(&region, "blue_wool"), None);
}

#[test]
fn optimize_seals_every_region_from_its_own_origin() {
    let catalog = Catalog::standard();
    let mut first = block_of(0, 4, "minecraft:stone");
    first.set_block(Vec3::new(2, 2, 2), BlockState::new("minecraft:blue_wool"));
    let mut second = block_of(0, 6, "minecraft:stone");
    second.set_block(Vec3::new(3, 3, 3), BlockState::new("minecraft:blue_wool"));
    second.set_block(Vec3::new(3, 4, 3), BlockState::air());
    let regions = vec![first.clone(), second.clone()];
    let out = optimize(&regions, "minecraft:blue_wool", &catalog).unwrap();
    assert_eq!(out.len(), 2);
    assert_eq!(
        out[0],
        optimize_region(&first, Vec3::new(2, 2, 2), false, None, &catalog).unwrap()
    );
    assert_eq!(
        out[1],
        optimize_region(&second, Vec3::new(3, 3, 3), false, None, &catalog).unwrap()
    );
    assert!(out[0].get_block(Vec3::new(2, 2, 2)).is_air());
    assert!(!out[0].get_block(Vec3::new(2, 3, 2)).is_air());
    assert!(out[0].get_block(Vec3::new(2, 4, 2)).is_air());
    assert!(!out[1].get_block(Vec3::new(3, 5, 3)).is_air());
}

#[test]
fn optimize_fails_where_a_region_has_no_origin() {
    let catalog = Catalog::standard();
    let mut first = block_of(0, 4, "minecraft:stone");
    first.set_block(Vec3::new(2, 2, 2), BlockState::new("minecraft:blue_wool"));
    let second = block_of(0, 4, "minecraft:stone");
    assert_eq!(
        optimize(&vec![first.clone(), second.clone()], "minecraft:blue_wool", &catalog),
        Err(Error::OriginNotFound)
    );
    assert_eq!(
        optimize(&vec![second, first.clone()], "minecraft:blue_wool", &catalog),
        Err(Error::OriginNotFound)
    );
    assert_eq!(optimize(&vec![first], "minecraft:red_wool", &catalog), Err(Error::OriginNotFound));
    assert_eq!(optimize(&vec![], "minecraft:blue_wool", &catalog), Ok(vec![]));
}

#[test]
fn replace_puts_air_where_lime_wool_was() {
    assert_eq!(REPLACED, "minecraft:lime_wool");
    let mut region = block_of(0, 1, "minecraft:stone");
    region.set_block(Vec3::new(0, 0, 0), BlockState::new("minecraft:lime_wool"));
    region.set_block(Vec3::new(1, 1, 0), BlockState::new("minecraft:lime_wool").with("a", "b"));
    region.set_block(Vec3::new(1, 0, 1), BlockState::new("minecraft:lime_concrete"));
    let mut expected = region.clone();
    expected.set_block(Vec3::new(0, 0, 0), BlockState::air());
    expected.set_block(Vec3::new(1, 1, 0), BlockState::air());
    let other = block_of(0, 0, "minecraft:lime_wool");
    let out = replace(&vec![region, other]);
    assert_eq!(out.len(), 2);
    assert_eq!(out[0], expected);
    assert_eq!(out[1], block_of(0, 0, "minecraft:air"));
    assert!(replace(&vec![]).is_empty());
}

#[test]
fn a_material_counts_under_its_name() {
    assert_eq!(material_key("minecraft:air"), None);
    assert_eq!(material_key("minecraft:stone"), Some("minecraft:stone".to_string()));
    assert_eq!(material_key("minecraft:oak_wall_sign"), Some("minecraft:oak_sign".to_string()));
    assert_eq!(material_key("minecraft:oak_sign"), Some("minecraft:oak_sign".to_string()));
    assert_eq!(
        material_key("minecraft:oak_wall_sign_post"),
        Some("minecraft:oak_wall_sign_post".to_string())
    );
    assert_eq!(material_key("a_wall_sign_wall_sign"), Some("a_sign_sign".to_string()));
    assert_eq!(material_key("_wall_sign"), Some("_sign".to_string()));
    assert_eq!(material_key(""), Some(String::new()));
}

#[test]
fn materials_are_counted_over_all_regions_and_listed_by_falling_count() {
    let mut first = block_of(0, 1, "minecraft:stone");
    first.set_block(Vec3::new(0, 0, 0), BlockState::air());
    first.set_block(Vec3::new(1, 0, 0), BlockState::new("minecraft:oak_wall_sign"));
    first.set_block(Vec3::new(0, 1, 0), BlockState::new("minecraft:oak_sign").with("rotation", "4"));
    let mut second = block_of(0, 1, "minecraft:dirt");
    second.set_block(Vec3::new(0, 0, 0), BlockState::new("minecraft:stone"));
    second.set_block(Vec3::new(1, 1, 1), BlockState::new("minecraft:oak_wall_sign"));
    second.set_block(Vec3::new(1, 0, 1), BlockState::new("minecraft:torch"));
    let list = materials(&vec![first, second]).unwrap();
    assert_eq!(
        list,
        vec![
            ("minecraft:stone".to_string(), 6),
            ("minecraft:dirt".to_string(), 5),
            ("minecraft:oak_sign".to_string(), 3),
            ("minecraft:torch".to_string(), 1),
        ]
    );
}

#[test]
fn materials_with_equal_counts_come_in_some_order() {
    let mut region = block_of(0, 1, "minecraft:air");
    region.set_block(Vec3::new(0, 0, 0), BlockState::new("minecraft:stone"));
    region.set_block(Vec3::new(1, 0, 0), BlockState::new("minecraft:dirt"));
    region.set_block(Vec3::new(0, 1, 0), BlockState::new("minecraft:glass"));
    region.set_block(Vec3::new(0, 1, 1), BlockState::new("minecraft:glass"));
    let mut list = materials(&vec![region]).unwrap();
    assert_eq!(list[0], ("minecraft:glass".to_string(), 2));
    assert_eq!(list.len(), 3);
    list.sort();
    assert_eq!(
        list,
        vec![
            ("minecraft:dirt".to_string(), 1),
            ("minecraft:glass".to_string(), 2),
            ("minecraft:stone".to_string(), 1),
        ]
    );
}

#[test]
fn nothing_but_air_gives_an_empty_list() {
    assert_eq!(materials(&vec![block_of(0, 2, "minecraft:air")]), Some(vec![]));
    assert_eq!(materials(&vec![]), Some(vec![]));
}

#[test]
fn by_count_puts_the_greatest_count_first() {
    let list = vec![
        ("a".to_string(), 2),
        ("b".to_string(), 7),
        ("c".to_string(), 2),
        ("d".to_string(), 9),
        ("e".to_string(), 1),
    ];
    assert_eq!(
        by_count(list),
        vec![
            ("d".to_string(), 9),
            ("b".to_string(), 7),
            ("a".to_string(), 2),
            ("c".to_string(), 2),
            ("e".to_string(), 1),
        ]
    );
    assert_eq!(by_count(vec![]), vec![]);
    assert_eq!(by_count(vec![("x".to_string(), -3)]), vec![("x".to_string(), -3)]);
}
