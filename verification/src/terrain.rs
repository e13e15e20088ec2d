//! Tiles and the tile map.
//!
//! The map is a finite mapping from coordinate to tile, read-only from the
//! simulation's perspective once it is built. A lookup outside the map
//! returns nothing, and such coordinates are treated as non-walkable.

use vstd::prelude::*;
use crate::grid::{dist2, Coordinate};

verus! {

/// The kind of terrain a tile is made of.
#[derive(Clone, Copy, PartialEq, Eq, Structural, Debug)]
pub enum TerrainKind {
    Floor,
    Wall,
}

/// One tile of the map: terrain kind and walkable flag, fixed once the map
/// is generated.
#[derive(Clone, Copy, PartialEq, Eq, Structural, Debug)]
pub struct Tile {
    pub kind: TerrainKind,
    pub walkable: bool,
}

/// Whether the point `p` holds a walkable tile of `m`; points absent from
/// the map are non-walkable.
pub open spec fn walkable_pt(m: Map<(int, int), Tile>, p: (int, int)) -> bool {
    m.dom().contains(p) && m[p].walkable
}

/// The mapping a sequence of `(coordinate, tile)` entries stands for; a later
/// entry for the same coordinate replaces an earlier one.
pub open spec fn entries_map(s: Seq<(Coordinate, Tile)>) -> Map<(int, int), Tile>
    decreases s.len(),
{
    if s.len() == 0 {
        Map::empty()
    } else {
        entries_map(s.drop_last()).insert(s.last().0.pt(), s.last().1)
    }
}

/// A point is in the domain of `entries_map(s)` exactly when some entry
/// carries it.
pub proof fn lemma_entries_map_dom(s: Seq<(Coordinate, Tile)>, p: (int, int))
    ensures
        entries_map(s).dom().contains(p) <==> exists|i: int|
            0 <= i < s.len() && (#[trigger] s[i]).0.pt() == p,
    decreases s.len(),
{
    if s.len() > 0 {
        lemma_entries_map_dom(s.drop_last(), p);
        if s.last().0.pt() == p {
            assert(s[s.len() - 1].0.pt() == p);
        } else if exists|i: int| 0 <= i < s.len() && (#[trigger] s[i]).0.pt() == p {
            let i = choose|i: int| 0 <= i < s.len() && (#[trigger] s[i]).0.pt() == p;
            assert(s.drop_last()[i] == s[i]);
        }
    }
}

/// The tile map.
pub struct GridMap {
    entries: Vec<(Coordinate, Tile)>,
}

impl View for GridMap {
    type V = Map<(int, int), Tile>;

    closed spec fn view(&self) -> Map<(int, int), Tile> {
        entries_map(self.entries@)
    }
}

impl GridMap {
    /// An empty map.
    pub fn new() -> (m: GridMap)
        ensures
            m@ == Map::<(int, int), Tile>::empty(),
    {
        GridMap { entries: Vec::new() }
    }

    /// Place (or replace) the tile at `c`. Maps are built this way before
    /// the simulation starts.
    pub fn set_tile(&mut self, c: Coordinate, t: Tile)
        ensures
            final(self)@ == old(self)@.insert(c.pt(), t),
    {
        self.entries.push((c, t));
        proof {
            assert(self.entries@.drop_last() == old(self).entries@);
        }
    }

    /// Look up the tile at `c`; absent for coordinates outside the map.
    pub fn tile_at(&self, c: Coordinate) -> (r: Option<Tile>)
        ensures
            r == if self@.dom().contains(c.pt()) {
                Some(self@[c.pt()])
            } else {
                None::<Tile>
            },
    {
        let n = self.entries.len();
        let ghost s = self.entries@;
        let mut r: Option<Tile> = None;
        let mut i: usize = 0;
        while i < n
            invariant
                n == s.len(),
                s == self.entries@,
                i <= n,
                r == if entries_map(s.take(i as int)).dom().contains(c.pt()) {
                    Some(entries_map(s.take(i as int))[c.pt()])
                } else {
                    None::<Tile>
                },
            decreases n - i,
        {
            let (ec, et) = self.entries[i];
            proof {
                assert(s.take(i + 1).drop_last() == s.take(i as int));
                assert(s.take(i + 1).last() == s[i as int]);
            }
            if ec.x == c.x && ec.y == c.y {
                r = Some(et);
            }
            i = i + 1;
        }
        proof {
            assert(s.take(n as int) == s);
        }
        r
    }

    /// Whether `c` holds a walkable tile; coordinates outside the map are
    /// non-walkable.
    pub fn walkable_at(&self, c: Coordinate) -> (r: bool)
        ensures
            r == walkable_pt(self@, c.pt()),
    {
        match self.tile_at(c) {
            Some(t) => t.walkable,
            None => false,
        }
    }

    /// A walkable coordinate of the map at minimum straight-line distance
    /// from `c`, if the map has any walkable tile. Among tiles at equal
    /// distance the choice is arbitrary but fixed for a given map.
    pub fn nearest_walkable(&self, c: Coordinate) -> (r: Option<Coordinate>)
        ensures
            match r {
                Some(w) => walkable_pt(self@, w.pt()) && forall|p: (int, int)|
                    #[trigger] walkable_pt(self@, p) ==> dist2(c.pt(), w.pt()) <= dist2(c.pt(), p),
                None => forall|p: (int, int)| !(#[trigger] walkable_pt(self@, p)),
            },
    {
        let n = self.entries.len();
        let ghost s = self.entries@;
        let mut best: Option<Coordinate> = None;
        let mut i: usize = 0;
        while i < n
            invariant
                n == s.len(),
                s == self.entries@,
                i <= n,
                match best {
                    Some(w) => walkable_pt(self@, w.pt()) && forall|j: int|
                        0 <= j < i && walkable_pt(self@, (#[trigger] s[j]).0.pt())
                            ==> dist2(c.pt(), w.pt()) <= dist2(c.pt(), s[j].0.pt()),
                    None => forall|j: int|
                        0 <= j < i ==> !walkable_pt(self@, (#[trigger] s[j]).0.pt()),
                },
            decreases n - i,
        {
            let (ec, _) = self.entries[i];
            if self.walkable_at(ec) {
                match best {
                    None => {
                        best = Some(ec);
                    },
                    Some(w) => {
                        if crate::grid::distance_squared(c, ec)
                            < crate::grid::distance_squared(c, w) {
                            best = Some(ec);
                        }
                    },
                }
            }
            i = i + 1;
        }
        proof {
            match best {
                Some(w) => {
                    assert forall|p: (int, int)| #[trigger] walkable_pt(self@, p)
                        implies dist2(c.pt(), w.pt()) <= dist2(c.pt(), p) by {
                        lemma_entries_map_dom(s, p);
                        let j = choose|j: int| 0 <= j < s.len() && (#[trigger] s[j]).0.pt() == p;
                        assert(walkable_pt(self@, s[j].0.pt()));
                    };
                },
                None => {
                    assert forall|p: (int, int)| !(#[trigger] walkable_pt(self@, p)) by {
                        lemma_entries_map_dom(s, p);
                        if walkable_pt(self@, p) {
                            let j = choose|j: int|
                                0 <= j < s.len() && (#[trigger] s[j]).0.pt() == p;
                            assert(walkable_pt(self@, s[j].0.pt()));
                        }
                    };
                },
            }
        }
        best
    }
}

} // verus!
