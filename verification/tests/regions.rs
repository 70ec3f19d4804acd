use lightseal::block::BlockState;
use lightseal::bounds::Bounds;
use lightseal::error::Error;
use lightseal::region::Region;
use lightseal::tracker::{is_just_outside, PositionMap, PositionTracker};
use lightseal::vec3::Vec3;

#[test]
fn a_new_region_is_all_air() {
    let region = Region::new("house", Vec3::new(-1, 0, 2), Vec3::new(1, 3, 2)).unwrap();
    assert_eq!(region.name(), "house");
    assert_eq!(region.bounds(), Bounds::new(Vec3::new(-1, 0, 2), Vec3::new(1, 3, 2)));
    assert_eq!(region.volume(), 12);
    for i in 0..region.volume() {
        assert!(region.block(i).is_air());
    }
    assert!(region.get_block(Vec3::new(0, 2, 2)).is_air());
}

#[test]
fn a_region_needs_ordered_corners_and_room_for_its_padding() {
    assert!(Region::new("r", Vec3::new(1, 0, 0), Vec3::new(0, 0, 0)).is_none());
    assert!(Region::new("r", Vec3::new(0, 0, 1), Vec3::new(0, 0, 0)).is_none());
    assert!(Region::new("r", Vec3::new(0, 0, 0), Vec3::new(0, 0, 0)).is_some());
    assert!(Region::new("r", Vec3::new(i32::MIN, 0, 0), Vec3::new(i32::MIN, 0, 0)).is_none());
    assert!(Region::new("r", Vec3::new(i32::MIN + 1, 0, 0), Vec3::new(i32::MIN + 1, 0, 0)).is_none());
    assert!(Region::new("r", Vec3::new(i32::MIN + 2, 0, 0), Vec3::new(i32::MIN + 2, 0, 0)).is_some());
    assert!(Region::new("r", Vec3::new(0, i32::MAX - 1, 0), Vec3::new(0, i32::MAX - 1, 0)).is_none());
    assert!(Region::new("r", Vec3::new(0, i32::MAX - 2, 0), Vec3::new(0, i32::MAX - 2, 0)).is_some());
}

#[test]
fn a_region_keeps_what_is_set() {
    let mut region = Region::new("r", Vec3::new(0, 0, 0), Vec3::new(2, 2, 2)).unwrap();
    let slab = BlockState::new("minecraft:oak_slab").with("type", "top");
    region.set_block(Vec3::new(1, 2, 0), slab.clone());
    assert_eq!(region.get_block(Vec3::new(1, 2, 0)), &slab);
    assert!(region.get_block(Vec3::new(1, 2, 1)).is_air());
    assert!(region.get_block(Vec3::new(0, 2, 0)).is_air());
    let copy = region.clone();
    assert_eq!(copy, region);
    region.set_block(Vec3::new(1, 2, 0), BlockState::air());
    assert_ne!(copy, region);
    assert_eq!(copy.get_block(Vec3::new(1, 2, 0)), &slab);
}

#[test]
fn blocks_are_numbered_x_first_then_z_then_y() {
    let bounds = Bounds::new(Vec3::new(10, 20, 30), Vec3::new(11, 22, 33));
    assert!(bounds.is_wf());
    assert_eq!(bounds.len(), 2 * 3 * 4);
    assert_eq!(bounds.index(&Vec3::new(10, 20, 30)), Some(0));
    assert_eq!(bounds.index(&Vec3::new(11, 20, 30)), Some(1));
    assert_eq!(bounds.index(&Vec3::new(10, 20, 31)), Some(2));
    assert_eq!(bounds.index(&Vec3::new(10, 21, 30)), Some(8));
    assert_eq!(bounds.index(&Vec3::new(11, 22, 33)), Some(23));
    assert_eq!(bounds.index(&Vec3::new(12, 22, 33)), None);
    assert_eq!(bounds.index(&Vec3::new(10, 19, 30)), None);
    for i in 0..bounds.len() {
        assert_eq!(bounds.index(&bounds.position(i)), Some(i));
    }
    assert_eq!(bounds.position(13), Vec3::new(11, 21, 32));
}

#[test]
fn bounds_know_what_they_hold_and_how_they_grow() {
    let bounds = Bounds::new(Vec3::new(0, 0, 0), Vec3::new(2, 1, 0));
    assert!(bounds.contains_pos(&Vec3::new(2, 1, 0)));
    assert!(!bounds.contains_pos(&Vec3::new(3, 1, 0)));
    assert!(!bounds.contains_pos(&Vec3::new(0, 0, -1)));
    assert_eq!(bounds.grow(), Bounds::new(Vec3::new(-1, -1, -1), Vec3::new(3, 2, 1)));
    assert!(!Bounds::new(Vec3::new(0, 0, 0), Vec3::new(-1, 0, 0)).is_wf());
    assert!(!Bounds::new(Vec3::new(i32::MIN, 0, 0), Vec3::new(0, 0, 0)).is_wf());
    assert!(!Bounds::new(Vec3::new(0, 0, 0), Vec3::new(0, 0, i32::MAX)).is_wf());
}

#[test]
fn just_outside_is_the_layer_around_the_region() {
    let region = Region::new("r", Vec3::new(0, 0, 0), Vec3::new(2, 2, 2)).unwrap();
    assert!(!is_just_outside(&Vec3::new(0, 0, 0), &region));
    assert!(!is_just_outside(&Vec3::new(2, 2, 2), &region));
    assert!(is_just_outside(&Vec3::new(-1, 0, 0), &region));
    assert!(is_just_outside(&Vec3::new(3, 3, 3), &region));
    assert!(is_just_outside(&Vec3::new(-1, -1, -1), &region));
    assert!(is_just_outside(&Vec3::new(1, 3, 1), &region));
    assert!(!is_just_outside(&Vec3::new(-2, 0, 0), &region));
    assert!(!is_just_outside(&Vec3::new(1, 4, 1), &region));
    assert!(!is_just_outside(&Vec3::new(1, 1, -2), &region));
}

#[test]
fn a_tracker_holds_positions_of_the_padded_box() {
    let region = Region::new("r", Vec3::new(0, 0, 0), Vec3::new(1, 2, 3)).unwrap();
    let mut tracker = PositionTracker::new(&region);
    assert!(!tracker.contains(&Vec3::new(0, 0, 0)));
    assert_eq!(tracker.insert(&Vec3::new(0, 0, 0)), Ok(()));
    assert_eq!(tracker.insert(&Vec3::new(-1, -1, -1)), Ok(()));
    assert_eq!(tracker.insert(&Vec3::new(2, 3, 4)), Ok(()));
    assert_eq!(tracker.insert(&Vec3::new(0, 0, 0)), Ok(()));
    assert!(tracker.contains(&Vec3::new(0, 0, 0)));
    assert!(tracker.contains(&Vec3::new(-1, -1, -1)));
    assert!(tracker.contains(&Vec3::new(2, 3, 4)));
    assert!(!tracker.contains(&Vec3::new(1, 0, 0)));
    assert!(!tracker.contains(&Vec3::new(0, 1, 0)));
    assert!(!tracker.contains(&Vec3::new(0, 0, 1)));
}

#[test]
fn a_tracker_refuses_what_lies_outside_the_padded_box() {
    let region = Region::new("r", Vec3::new(0, 0, 0), Vec3::new(1, 2, 3)).unwrap();
    let mut tracker = PositionTracker::new(&region);
    assert_eq!(tracker.insert(&Vec3::new(3, 0, 0)), Err(Error::OutOfBoundsAccess));
    assert_eq!(tracker.insert(&Vec3::new(0, -2, 0)), Err(Error::OutOfBoundsAccess));
    assert!(!tracker.contains(&Vec3::new(3, 0, 0)));
    assert!(!tracker.contains(&Vec3::new(-2, 0, 0)));
    assert!(!tracker.contains(&Vec3::new(i32::MAX, i32::MIN, 0)));
    assert_eq!(tracker.pos_to_index(&Vec3::new(3, 0, 0)), None);
}

#[test]
fn a_tracker_numbers_the_padded_box() {
    let region = Region::new("r", Vec3::new(0, 0, 0), Vec3::new(1, 2, 3)).unwrap();
    let tracker = PositionTracker::new(&region);
    assert_eq!(tracker.pos_to_index(&Vec3::new(-1, -1, -1)), Some(0));
    assert_eq!(tracker.pos_to_index(&Vec3::new(0, -1, -1)), Some(1));
    assert_eq!(tracker.pos_to_index(&Vec3::new(-1, -1, 0)), Some(4));
    assert_eq!(tracker.pos_to_index(&Vec3::new(-1, 0, -1)), Some(24));
    assert_eq!(tracker.pos_to_index(&Vec3::new(1, 2, 3)), Some(2 + 4 * 4 + 3 * 24));
    assert_eq!(tracker.pos_to_index(&Vec3::new(2, 3, 4)), Some(4 * 5 * 6 - 1));
}

#[test]
fn a_position_map_gives_each_position_its_value() {
    let bounds = Bounds::new(Vec3::new(0, 0, 0), Vec3::new(1, 1, 1));
    let mut map: PositionMap<u8> = PositionMap::new(bounds, 7);
    assert_eq!(map.get(&Vec3::new(1, 0, 1)), Some(7));
    assert_eq!(map.get(&Vec3::new(2, 0, 1)), None);
    assert_eq!(map.set(&Vec3::new(1, 0, 1), 9), Ok(()));
    assert_eq!(map.set(&Vec3::new(1, 0, 2), 9), Err(Error::OutOfBoundsAccess));
    assert_eq!(map.get(&Vec3::new(1, 0, 1)), Some(9));
    assert_eq!(map.get(&Vec3::new(0, 0, 1)), Some(7));
    assert_eq!(map.get(&Vec3::new(1, 1, 1)), Some(7));
}
