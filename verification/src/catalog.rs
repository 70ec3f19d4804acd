//! The block types that fill their whole space.

use vstd::prelude::*;
use crate::block::AIR;

verus! {

/// The block types that fill their whole space, whatever their attributes.
/// Air is never among them.
pub struct Catalog {
    solid: Vec<String>,
}

/// The names in a list of texts.
pub open spec fn names_of(list: Seq<String>) -> Set<Seq<char>> {
    Set::new(|n: Seq<char>| exists|i: int| 0 <= i < list.len() && (#[trigger] list[i])@ == n)
}

/// The block types that the standard catalog holds.
pub open spec fn standard_solids() -> Set<Seq<char>> {
    set![
        "minecraft:andesite"@,
        "minecraft:blue_concrete"@,
        "minecraft:bone_block"@,
        "minecraft:calcite"@,
        "minecraft:chiseled_quartz_block"@,
        "minecraft:cobblestone"@,
        "minecraft:copper_block"@,
        "minecraft:deepslate_bricks"@,
        "minecraft:deepslate_tiles"@,
        "minecraft:diorite"@,
        "minecraft:dirt"@,
        "minecraft:glowstone"@,
        "minecraft:gold_block"@,
        "minecraft:lapis_block"@,
        "minecraft:lime_wool"@,
        "minecraft:mushroom_stem"@,
        "minecraft:netherrack"@,
        "minecraft:oak_wood"@,
        "minecraft:ochre_froglight"@,
        "minecraft:polished_andesite"@,
        "minecraft:polished_diorite"@,
        "minecraft:quartz_block"@,
        "minecraft:quartz_bricks"@,
        "minecraft:quartz_pillar"@,
        "minecraft:raw_gold_block"@,
        "minecraft:red_nether_bricks"@,
        "minecraft:sea_lantern"@,
        "minecraft:smooth_quartz"@,
        "minecraft:smooth_stone"@,
        "minecraft:spruce_wood"@,
        "minecraft:stone"@,
        "minecraft:stone_bricks"@,
        "minecraft:tuff"@,
        "minecraft:yellow_glazed_terracotta"@,
    ]
}

impl View for Catalog {
    type V = Set<Seq<char>>;

    /// The names of the block types on the catalog.
    closed spec fn view(&self) -> Set<Seq<char>> {
        names_of(self.solid@)
    }
}

impl Catalog {
    /// Air is not on the catalog.
    pub open spec fn wf(self) -> bool {
        !self@.contains(AIR@)
    }

    /// A catalog without entries: every block lets the signal through
    /// unless it is a stair or a slab.
    pub fn new() -> (c: Catalog)
        ensures
            c.wf(),
            c@ == Set::<Seq<char>>::empty(),
    {
        let c = Catalog { solid: Vec::new() };
        assert(c@ =~= Set::<Seq<char>>::empty());
        c
    }

    /// Puts the block type `name` on the catalog. Air is refused: the
    /// catalog stays as it is and the result is `false`.
    pub fn insert(&mut self, name: &str) -> (added: bool)
        requires
            old(self).wf(),
        ensures
            final(self).wf(),
            added == (name@ != AIR@),
            final(self)@ == if added {
                old(self)@.insert(name@)
            } else {
                old(self)@
            },
    {
        let owned = name.to_owned();
        if owned == AIR.to_owned() {
            return false;
        }
        let ghost before = self.solid@;
        self.solid.push(owned);
        proof {
            let after = self.solid@;
            assert forall|n: Seq<char>| names_of(after).contains(n) <==> names_of(before).insert(
                name@,
            ).contains(n) by {
                if names_of(after).contains(n) {
                    let i = choose|i: int| 0 <= i < after.len() && (#[trigger] after[i])@ == n;
                    if i < before.len() {
                        assert(before[i]@ == n);
                    }
                }
                if names_of(before).contains(n) {
                    let i = choose|i: int| 0 <= i < before.len() && (#[trigger] before[i])@ == n;
                    assert(after[i]@ == n);
                }
                assert(after[before.len() as int]@ == name@);
            }
            assert(self@ =~= old(self)@.insert(name@));
        }
        true
    }

    /// Tells whether the block type `name` is on the catalog.
    pub fn contains(&self, name: &str) -> (r: bool)
        ensures
            r == self@.contains(name@),
    {
        let wanted = name.to_owned();
        let mut i: usize = 0;
        while i < self.solid.len()
            invariant
                i <= self.solid.len(),
                wanted@ == name@,
                forall|j: int| 0 <= j < i ==> (#[trigger] self.solid@[j])@ != name@,
            decreases self.solid.len() - i,
        {
            if self.solid[i] == wanted {
                return true;
            }
            i += 1;
        }
        false
    }

    /// The catalog of the block types known to fill their whole space.
    pub fn standard() -> (c: Catalog)
        ensures
            c.wf(),
            c@ == standard_solids(),
    {
        let mut c = Catalog::new();
        proof {
            reveal_strlit("minecraft:air");
            assert(AIR@.len() == 13);
            reveal_strlit("minecraft:andesite");
            assert("minecraft:andesite"@.len() == 18);
            reveal_strlit("minecraft:blue_concrete");
            assert("minecraft:blue_concrete"@.len() == 23);
            reveal_strlit("minecraft:bone_block");
            assert("minecraft:bone_block"@.len() == 20);
            reveal_strlit("minecraft:calcite");
            assert("minecraft:calcite"@.len() == 17);
            reveal_strlit("minecraft:chiseled_quartz_block");
            assert("minecraft:chiseled_quartz_block"@.len() == 31);
            reveal_strlit("minecraft:cobblestone");
            assert("minecraft:cobblestone"@.len() == 21);
            reveal_strlit("minecraft:copper_block");
            assert("minecraft:copper_block"@.len() == 22);
            reveal_strlit("minecraft:deepslate_bricks");
            assert("minecraft:deepslate_bricks"@.len() == 26);
            reveal_strlit("minecraft:deepslate_tiles");
            assert("minecraft:deepslate_tiles"@.len() == 25);
            reveal_strlit("minecraft:diorite");
            assert("minecraft:diorite"@.len() == 17);
            reveal_strlit("minecraft:dirt");
            assert("minecraft:dirt"@.len() == 14);
            reveal_strlit("minecraft:glowstone");
            assert("minecraft:glowstone"@.len() == 19);
            reveal_strlit("minecraft:gold_block");
            assert("minecraft:gold_block"@.len() == 20);
            reveal_strlit("minecraft:lapis_block");
            assert("minecraft:lapis_block"@.len() == 21);
            reveal_strlit("minecraft:lime_wool");
            assert("minecraft:lime_wool"@.len() == 19);
            reveal_strlit("minecraft:mushroom_stem");
            assert("minecraft:mushroom_stem"@.len() == 23);
            reveal_strlit("minecraft:netherrack");
            assert("minecraft:netherrack"@.len() == 20);
            reveal_strlit("minecraft:oak_wood");
            assert("minecraft:oak_wood"@.len() == 18);
            reveal_strlit("minecraft:ochre_froglight");
            assert("minecraft:ochre_froglight"@.len() == 25);
            reveal_strlit("minecraft:polished_andesite");
            assert("minecraft:polished_andesite"@.len() == 27);
            reveal_strlit("minecraft:polished_diorite");
            assert("minecraft:polished_diorite"@.len() == 26);
            reveal_strlit("minecraft:quartz_block");
            assert("minecraft:quartz_block"@.len() == 22);
            reveal_strlit("minecraft:quartz_bricks");
            assert("minecraft:quartz_bricks"@.len() == 23);
            reveal_strlit("minecraft:quartz_pillar");
            assert("minecraft:quartz_pillar"@.len() == 23);
            reveal_strlit("minecraft:raw_gold_block");
            assert("minecraft:raw_gold_block"@.len() == 24);
            reveal_strlit("minecraft:red_nether_bricks");
            assert("minecraft:red_nether_bricks"@.len() == 27);
            reveal_strlit("minecraft:sea_lantern");
            assert("minecraft:sea_lantern"@.len() == 21);
            reveal_strlit("minecraft:smooth_quartz");
            assert("minecraft:smooth_quartz"@.len() == 23);
            reveal_strlit("minecraft:smooth_stone");
            assert("minecraft:smooth_stone"@.len() == 22);
            reveal_strlit("minecraft:spruce_wood");
            assert("minecraft:spruce_wood"@.len() == 21);
            reveal_strlit("minecraft:stone");
            assert("minecraft:stone"@.len() == 15);
            reveal_strlit("minecraft:stone_bricks");
            assert("minecraft:stone_bricks"@.len() == 22);
            reveal_strlit("minecraft:tuff");
            assert("minecraft:tuff"@.len() == 14);
            reveal_strlit("minecraft:yellow_glazed_terracotta");
            assert("minecraft:yellow_glazed_terracotta"@.len() == 34);
        }
        c.insert("minecraft:andesite");
        c.insert("minecraft:blue_concrete");
        c.insert("minecraft:bone_block");
        c.insert("minecraft:calcite");
        c.insert("minecraft:chiseled_quartz_block");
        c.insert("minecraft:cobblestone");
        c.insert("minecraft:copper_block");
        c.insert("minecraft:deepslate_bricks");
        c.insert("minecraft:deepslate_tiles");
        c.insert("minecraft:diorite");
        c.insert("minecraft:dirt");
        c.insert("minecraft:glowstone");
        c.insert("minecraft:gold_block");
        c.insert("minecraft:lapis_block");
        c.insert("minecraft:lime_wool");
        c.insert("minecraft:mushroom_stem");
        c.insert("minecraft:netherrack");
        c.insert("minecraft:oak_wood");
        c.insert("minecraft:ochre_froglight");
        c.insert("minecraft:polished_andesite");
        c.insert("minecraft:polished_diorite");
        c.insert("minecraft:quartz_block");
        c.insert("minecraft:quartz_bricks");
        c.insert("minecraft:quartz_pillar");
        c.insert("minecraft:raw_gold_block");
        c.insert("minecraft:red_nether_bricks");
        c.insert("minecraft:sea_lantern");
        c.insert("minecraft:smooth_quartz");
        c.insert("minecraft:smooth_stone");
        c.insert("minecraft:spruce_wood");
        c.insert("minecraft:stone");
        c.insert("minecraft:stone_bricks");
        c.insert("minecraft:tuff");
        c.insert("minecraft:yellow_glazed_terracotta");
        c
    }
}

} // verus!
