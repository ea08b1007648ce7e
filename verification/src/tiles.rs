//! The tile registry: the static mapping from symbolic tile name to its
//! tileset sprite, built once at startup and immutable thereafter.
//! Navigation never consults it; rendering does, and a missing name is not
//! an error here — callers decide.

use vstd::prelude::*;
use crate::page::bytes_eq;

verus! {

/// A sprite sheet.
#[derive(Clone, Copy, PartialEq, Eq, Debug)]
pub enum Tileset {
    Town,
}

/// A tile's sprite: tileset, column, row.
#[derive(Clone, Copy, PartialEq, Eq, Debug)]
pub struct Tiledef(pub Tileset, pub u32, pub u32);

/// The registry.
pub struct Tiles {
    pub tiles: Vec<(Vec<u8>, Tiledef)>,
}

pub open spec fn name_grass() -> Seq<u8> {
    seq![103u8, 114u8, 97u8, 115u8, 115u8]
}

pub open spec fn name_brick() -> Seq<u8> {
    seq![98u8, 114u8, 105u8, 99u8, 107u8]
}

pub open spec fn name_lamp() -> Seq<u8> {
    seq![108u8, 97u8, 109u8, 112u8]
}

pub open spec fn name_sand() -> Seq<u8> {
    seq![115u8, 97u8, 110u8, 100u8]
}

pub open spec fn name_well() -> Seq<u8> {
    seq![119u8, 101u8, 108u8, 108u8]
}

impl Tiles {
    /// Exactly the five known tiles, in their registry order.
    pub open spec fn wf(self) -> bool {
        &&& self.tiles@.len() == 5
        &&& self.tiles@[0].0@ == name_grass() && self.tiles@[0].1 == Tiledef(Tileset::Town, 0u32, 0u32)
        &&& self.tiles@[1].0@ == name_brick() && self.tiles@[1].1 == Tiledef(Tileset::Town, 0u32, 1u32)
        &&& self.tiles@[2].0@ == name_lamp() && self.tiles@[2].1 == Tiledef(Tileset::Town, 0u32, 2u32)
        &&& self.tiles@[3].0@ == name_sand() && self.tiles@[3].1 == Tiledef(Tileset::Town, 2u32, 3u32)
        &&& self.tiles@[4].0@ == name_well() && self.tiles@[4].1 == Tiledef(Tileset::Town, 1u32, 3u32)
    }

    /// Build the registry.
    pub fn new() -> (r: Self)
        ensures
            r.wf(),
    {
        let mut tiles: Vec<(Vec<u8>, Tiledef)> = Vec::new();
        let n: Vec<u8> = vec![103u8, 114u8, 97u8, 115u8, 115u8];
        proof {
            assert(n@ =~= name_grass());
        }
        tiles.push((n, Tiledef(Tileset::Town, 0, 0)));
        let n: Vec<u8> = vec![98u8, 114u8, 105u8, 99u8, 107u8];
        proof {
            assert(n@ =~= name_brick());
        }
        tiles.push((n, Tiledef(Tileset::Town, 0, 1)));
        let n: Vec<u8> = vec![108u8, 97u8, 109u8, 112u8];
        proof {
            assert(n@ =~= name_lamp());
        }
        tiles.push((n, Tiledef(Tileset::Town, 0, 2)));
        let n: Vec<u8> = vec![115u8, 97u8, 110u8, 100u8];
        proof {
            assert(n@ =~= name_sand());
        }
        tiles.push((n, Tiledef(Tileset::Town, 2, 3)));
        let n: Vec<u8> = vec![119u8, 101u8, 108u8, 108u8];
        proof {
            assert(n@ =~= name_well());
        }
        tiles.push((n, Tiledef(Tileset::Town, 1, 3)));
        Tiles { tiles }
    }

    /// Resolve a tile name: the definition of the first entry carrying it,
    /// or `None` where the registry has no such name.
    pub fn lookup(&self, name: &Vec<u8>) -> (r: Option<&Tiledef>)
        ensures
            match r {
                Some(d) => exists|k: int|
                    0 <= k < self.tiles@.len() && (#[trigger] self.tiles@[k]).0@ == name@ && *d
                        == self.tiles@[k].1,
                None => forall|k: int|
                    0 <= k < self.tiles@.len() ==> (#[trigger] self.tiles@[k]).0@ != name@,
            },
    {
        let mut k: usize = 0;
        while k < self.tiles.len()
            invariant
                0 <= k <= self.tiles@.len(),
                forall|q: int| 0 <= q < k ==> (#[trigger] self.tiles@[q]).0@ != name@,
            decreases self.tiles@.len() - k,
        {
            if bytes_eq(&self.tiles[k].0, name) {
                return Some(&self.tiles[k].1);
            }
            k += 1;
        }
        None
    }
}

} // verus!
