//! The blocks that colour generations and mark leaks.

use vstd::prelude::*;
use crate::block::{BlockState, BlockStateView};

verus! {

/// The name of the block type that marks the way of a leak.
pub const MARKER: &'static str = "minecraft:red_wool";

/// The sixteen block types that colour the air by generation.
pub open spec fn rainbow() -> Seq<Seq<char>> {
    seq![
        "minecraft:red_wool"@,
        "minecraft:red_concrete"@,
        "minecraft:orange_wool"@,
        "minecraft:orange_concrete"@,
        "minecraft:yellow_wool"@,
        "minecraft:yellow_concrete"@,
        "minecraft:lime_wool"@,
        "minecraft:lime_concrete"@,
        "minecraft:cyan_wool"@,
        "minecraft:cyan_concrete"@,
        "minecraft:light_blue_wool"@,
        "minecraft:light_blue_concrete"@,
        "minecraft:blue_wool"@,
        "minecraft:blue_concrete"@,
        "minecraft:purple_wool"@,
        "minecraft:purple_concrete"@,
    ]
}

/// The block that colours the generation `gen`: the colours repeat every
/// sixteen generations.
pub open spec fn rainbow_view(gen: nat) -> BlockStateView {
    BlockStateView { name: rainbow()[gen as int % 16], properties: None }
}

/// The block that marks the way of a leak.
pub open spec fn marker_view() -> BlockStateView {
    BlockStateView { name: MARKER@, properties: None }
}

/// The block that colours the generation `gen`.
pub fn rainbow_block(gen: usize) -> (b: BlockState)
    ensures
        b@ == rainbow_view(gen as nat),
{
    let name = match gen % 16 {
        0 => "minecraft:red_wool",
        1 => "minecraft:red_concrete",
        2 => "minecraft:orange_wool",
        3 => "minecraft:orange_concrete",
        4 => "minecraft:yellow_wool",
        5 => "minecraft:yellow_concrete",
        6 => "minecraft:lime_wool",
        7 => "minecraft:lime_concrete",
        8 => "minecraft:cyan_wool",
        9 => "minecraft:cyan_concrete",
        10 => "minecraft:light_blue_wool",
        11 => "minecraft:light_blue_concrete",
        12 => "minecraft:blue_wool",
        13 => "minecraft:blue_concrete",
        14 => "minecraft:purple_wool",
        _ => "minecraft:purple_concrete",
    };
    BlockState::new(name)
}

/// The block that marks the way of a leak.
pub fn marker_block() -> (b: BlockState)
    ensures
        b@ == marker_view(),
{
    BlockState::new(MARKER)
}

} // verus!
