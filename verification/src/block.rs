//! Blocks: the name of a type and the attributes of a variant.

use vstd::prelude::*;
use crate::text::str_eq;

verus! {

/// The name of the block type that stands for nothing: what fills a
/// position that holds no block.
pub const AIR: &'static str = "minecraft:air";

/// A block: the name of its type, and the attributes that tell its variant
/// apart (which half of the space a slab takes, where a stair faces). The
/// attributes are a list of pairs of a key and a value; where a key occurs
/// more than once, its first pair counts.
#[derive(Debug, PartialEq, Eq)]
pub struct BlockState {
    pub name: String,
    pub properties: Option<Vec<(String, String)>>,
}

/// A block as plain values.
pub struct BlockStateView {
    pub name: Seq<char>,
    pub properties: Option<Seq<(Seq<char>, Seq<char>)>>,
}

/// The value of the first pair of `props` whose key is `key`.
pub open spec fn lookup(props: Seq<(Seq<char>, Seq<char>)>, key: Seq<char>) -> Option<Seq<char>>
    decreases props.len(),
{
    if props.len() == 0 {
        None
    } else if props[0].0 == key {
        Some(props[0].1)
    } else {
        lookup(props.drop_first(), key)
    }
}

/// The pairs of an attribute list as plain values.
pub open spec fn pairs_view(props: Seq<(String, String)>) -> Seq<(Seq<char>, Seq<char>)> {
    props.map_values(|p: (String, String)| (p.0@, p.1@))
}

impl BlockStateView {
    /// The air block.
    pub open spec fn air() -> BlockStateView {
        BlockStateView { name: AIR@, properties: None }
    }

    pub open spec fn is_air(self) -> bool {
        self.name == AIR@
    }

    /// The value of the attribute `key`; the empty text where the block has
    /// no such attribute.
    pub open spec fn attribute(self, key: Seq<char>) -> Seq<char> {
        match self.properties {
            None => Seq::empty(),
            Some(props) => match lookup(props, key) {
                None => Seq::empty(),
                Some(value) => value,
            },
        }
    }
}

impl View for BlockState {
    type V = BlockStateView;

    open spec fn view(&self) -> BlockStateView {
        BlockStateView {
            name: self.name@,
            properties: match self.properties {
                None => None,
                Some(props) => Some(pairs_view(props@)),
            },
        }
    }
}

impl Clone for BlockState {
    fn clone(&self) -> (b: BlockState)
        ensures
            b@ == self@,
    {
        let properties = match &self.properties {
            None => None,
            Some(props) => {
                let mut copy: Vec<(String, String)> = Vec::new();
                let mut i: usize = 0;
                while i < props.len()
                    invariant
                        i <= props.len(),
                        copy.len() == i,
                        forall|j: int| 0 <= j < i ==> pairs_view(copy@)[j] == pairs_view(props@)[j],
                    decreases props.len() - i,
                {
                    copy.push((props[i].0.clone(), props[i].1.clone()));
                    i += 1;
                }
                assert(pairs_view(copy@) =~= pairs_view(props@));
                Some(copy)
            },
        };
        BlockState { name: self.name.clone(), properties }
    }
}

impl BlockState {
    /// A block of the type `name` without attributes.
    pub fn new(name: &str) -> (b: BlockState)
        ensures
            b@ == (BlockStateView { name: name@, properties: None }),
    {
        BlockState { name: name.to_owned(), properties: None }
    }

    /// The air block.
    pub fn air() -> (b: BlockState)
        ensures
            b@ == BlockStateView::air(),
    {
        BlockState::new(AIR)
    }

    /// The same block with the attribute `key` set to `value`, ahead of any
    /// earlier pair with that key.
    pub fn with(self, key: &str, value: &str) -> (b: BlockState)
        ensures
            b@.name == self@.name,
            b@.properties == Some(
                seq![(key@, value@)] + match self@.properties {
                    None => Seq::empty(),
                    Some(props) => props,
                },
            ),
    {
        let mut props: Vec<(String, String)> = Vec::new();
        props.push((key.to_owned(), value.to_owned()));
        let name = self.name;
        match self.properties {
            None => {
                assert(pairs_view(props@) =~= seq![(key@, value@)] + Seq::empty());
            },
            Some(mut old) => {
                let ghost before = old@;
                props.append(&mut old);
                assert(pairs_view(props@) =~= seq![(key@, value@)] + pairs_view(before));
            },
        }
        BlockState { name, properties: Some(props) }
    }

    pub fn is_air(&self) -> (r: bool)
        ensures
            r == self@.is_air(),
    {
        str_eq(self.name.as_str(), AIR)
    }

    /// Whether the two blocks have the same type and the same list of
    /// attributes.
    #[verifier::loop_isolation(false)]
    pub fn same_as(&self, other: &BlockState) -> (r: bool)
        ensures
            r == (self@ == other@),
    {
        if self.name != other.name {
            return false;
        }
        match &self.properties {
            None => other.properties.is_none(),
            Some(a) => match &other.properties {
                None => false,
                Some(b) => {
                    if a.len() != b.len() {
                        assert(pairs_view(a@).len() != pairs_view(b@).len());
                        return false;
                    }
                    let mut i: usize = 0;
                    while i < a.len()
                        invariant
                            i <= a.len(),
                            a.len() == b.len(),
                            forall|j: int| 0 <= j < i ==> pairs_view(a@)[j] == pairs_view(b@)[j],
                        decreases a.len() - i,
                    {
                        if a[i].0 != b[i].0 || a[i].1 != b[i].1 {
                            assert(pairs_view(a@)[i as int] != pairs_view(b@)[i as int]);
                            return false;
                        }
                        i += 1;
                    }
                    assert(pairs_view(a@) =~= pairs_view(b@));
                    true
                },
            },
        }
    }

    /// The value of the attribute `key`, if the block has it.
    #[verifier::loop_isolation(false)]
    pub fn property(&self, key: &str) -> (r: Option<&String>)
        ensures
            match self@.properties {
                None => r is None,
                Some(props) => match lookup(props, key@) {
                    None => r is None,
                    Some(value) => r is Some && r->0@ == value,
                },
            },
    {
        match &self.properties {
            None => None,
            Some(props) => {
                let wanted = key.to_owned();
                let mut i: usize = 0;
                let ghost all = pairs_view(props@);
                assert(all.skip(0) =~= all);
                while i < props.len()
                    invariant
                        i <= props.len(),
                        all == pairs_view(props@),
                        wanted@ == key@,
                        lookup(all, key@) == lookup(all.skip(i as int), key@),
                    decreases props.len() - i,
                {
                    let ghost rest = all.skip(i as int);
                    assert(rest.len() > 0 && rest[0] == all[i as int]);
                    assert(all[i as int] == (props@[i as int].0@, props@[i as int].1@));
                    assert(rest.drop_first() =~= all.skip(i + 1));
                    if props[i].0 == wanted {
                        return Some(&props[i].1);
                    }
                    i += 1;
                }
                None
            },
        }
    }

    /// The value of the attribute `key`, or the empty text.
    pub fn attribute(&self, key: &str) -> (r: String)
        ensures
            r@ == self@.attribute(key@),
    {
        match self.property(key) {
            Some(value) => value.clone(),
            None => String::new(),
        }
    }
}

} // verus!
