use vstd::prelude::*;

use crate::position::Position;
use crate::ship::Ship;

verus! {

/// The sizes of the full fleet, largest first.
pub open spec fn fleet() -> Seq<i8> {
    seq![5i8, 4i8, 3i8, 3i8, 2i8]
}

/// `s` without its first occurrence of `v` (unchanged when `v` is absent).
pub open spec fn remove_first(s: Seq<i8>, v: i8) -> Seq<i8>
    decreases s.len(),
{
    if s.len() == 0 {
        s
    } else if s[0] == v {
        s.subrange(1, s.len() as int)
    } else {
        seq![s[0]] + remove_first(s.subrange(1, s.len() as int), v)
    }
}

/// The fleet sizes that `ships` have not used yet, in fleet order: each ship
/// takes away one occurrence of its size.
pub open spec fn missing_sizes(ships: Seq<Ship>) -> Seq<i8>
    decreases ships.len(),
{
    if ships.len() == 0 {
        fleet()
    } else {
        remove_first(missing_sizes(ships.drop_last()), ships.last().size)
    }
}

/// Each ship's size was still missing from the fleet when the ship was added:
/// the sizes form a sub-multiset of the fleet.
pub open spec fn sizes_fit(ships: Seq<Ship>) -> bool
    decreases ships.len(),
{
    ships.len() == 0 || (sizes_fit(ships.drop_last()) && missing_sizes(ships.drop_last()).contains(
        ships.last().size,
    ))
}

/// Some ship of `ships` occupies `p` or one of its neighbours.
pub open spec fn seq_covers(ships: Seq<Ship>, p: Position) -> bool {
    exists|i: int| 0 <= i < ships.len() && #[trigger] ships[i].touches(p)
}

/// Every value of `s` lies in `lo..=hi`.
pub open spec fn all_within(s: Seq<i8>, lo: int, hi: int) -> bool {
    forall|i: int| 0 <= i < s.len() ==> lo <= #[trigger] s[i] <= hi
}

/// Removing a value keeps every other value where it was bounded.
pub proof fn lemma_remove_first_within(s: Seq<i8>, v: i8, lo: int, hi: int)
    requires
        all_within(s, lo, hi),
    ensures
        all_within(remove_first(s, v), lo, hi),
        remove_first(s, v).len() <= s.len(),
    decreases s.len(),
{
    if s.len() > 0 && s[0] != v {
        let t = s.subrange(1, s.len() as int);
        lemma_remove_first_within(t, v, lo, hi);
        let r = seq![s[0]] + remove_first(t, v);
        assert forall|i: int| 0 <= i < r.len() implies lo <= #[trigger] r[i] <= hi by {
            if i > 0 {
                assert(r[i] == remove_first(t, v)[i - 1]);
            }
        }
    }
}

/// The missing sizes are fleet sizes, `2..=5`, at most five of them.
pub proof fn lemma_missing_within(ships: Seq<Ship>)
    ensures
        all_within(missing_sizes(ships), 2, 5),
        missing_sizes(ships).len() <= 5,
    decreases ships.len(),
{
    if ships.len() > 0 {
        lemma_missing_within(ships.drop_last());
        lemma_remove_first_within(missing_sizes(ships.drop_last()), ships.last().size, 2, 5);
    }
}

/// Why a ship cannot join a placement.
#[derive(Debug, Clone, Copy, PartialEq, Eq, Structural)]
pub enum PlacementError {
    /// The placement already holds five ships.
    TooManyShips,
    /// No ship of this size is missing from the fleet.
    InvalidSize,
    /// The ship touches or overlaps a ship already placed.
    Collision,
    /// Part of the ship lies outside the grid.
    OutOfBounds,
}

/// The first rule, in the order they are checked, that `ship` breaks when added
/// to `ships`; `None` when it may be added.
pub open spec fn add_error(ships: Seq<Ship>, ship: Ship) -> Option<PlacementError> {
    if ships.len() >= 5 {
        Some(PlacementError::TooManyShips)
    } else if !missing_sizes(ships).contains(ship.size) {
        Some(PlacementError::InvalidSize)
    } else if exists|i: int| 0 <= i < ships.len() && #[trigger] ships[i].collides(ship) {
        Some(PlacementError::Collision)
    } else if !ship.in_grid() {
        Some(PlacementError::OutOfBounds)
    } else {
        None
    }
}

/// `ships` followed by `ship` when it may be added, else `ships` unchanged.
pub open spec fn add_or_keep(ships: Seq<Ship>, ship: Ship) -> Seq<Ship> {
    if add_error(ships, ship) is None {
        ships.push(ship)
    } else {
        ships
    }
}

/// The fleet invariants over a sequence of ships.
pub open spec fn ships_wf(ships: Seq<Ship>) -> bool {
    &&& ships.len() <= 5
    &&& sizes_fit(ships)
    &&& forall|i: int| 0 <= i < ships.len() ==> #[trigger] ships[i].wf() && ships[i].in_grid()
    &&& forall|i: int, j: int|
        0 <= i < ships.len() && 0 <= j < ships.len() && i != j ==> !(#[trigger] ships[i].collides(
            #[trigger] ships[j],
        ))
}

/// Adding a ship that breaks no rule keeps the fleet invariants.
pub proof fn lemma_add_keeps_wf(ships: Seq<Ship>, ship: Ship)
    requires
        ships_wf(ships),
        ship.wf(),
    ensures
        ships_wf(add_or_keep(ships, ship)),
{
    if add_error(ships, ship) is None {
        let n = ships.push(ship);
        assert(n.drop_last() =~= ships);
        assert forall|i: int, j: int|
            0 <= i < n.len() && 0 <= j < n.len() && i != j implies !(#[trigger] n[i].collides(
                #[trigger] n[j],
            )) by {
            if i == ships.len() {
                assert(!ships[j].collides(ship));
            } else if j == ships.len() {
                assert(!ships[i].collides(ship));
            }
        }
    }
}

/// The (first) occurrence of `v` in `s` is at index `j`: removing it is `remove`.
pub proof fn lemma_remove_first_at(s: Seq<i8>, v: i8, j: int)
    requires
        0 <= j < s.len(),
        s[j] == v,
        forall|k: int| 0 <= k < j ==> s[k] != v,
    ensures
        remove_first(s, v) == s.remove(j),
    decreases s.len(),
{
    if j > 0 {
        let t = s.subrange(1, s.len() as int);
        lemma_remove_first_at(t, v, j - 1);
        assert(seq![s[0]] + t.remove(j - 1) =~= s.remove(j));
    } else {
        assert(s.subrange(1, s.len() as int) =~= s.remove(0));
    }
}

/// Removing a value that does not occur changes nothing.
pub proof fn lemma_remove_first_absent(s: Seq<i8>, v: i8)
    requires
        !s.contains(v),
    ensures
        remove_first(s, v) == s,
    decreases s.len(),
{
    if s.len() > 0 {
        let t = s.subrange(1, s.len() as int);
        assert(!t.contains(v)) by {
            if t.contains(v) {
                let k = choose|k: int| 0 <= k < t.len() && t[k] == v;
                assert(s[k + 1] == v);
            }
        }
        lemma_remove_first_absent(t, v);
        assert(s[0] != v) by {
            assert(s.contains(s[0]));
        }
        assert(seq![s[0]] + t =~= s);
    }
}

/// A candidate or constructed fleet: ships in the order they were added.
#[derive(Debug, Clone)]
pub struct Placement {
    pub ships: Vec<Ship>,
}

impl Placement {
    /// The fleet invariants: at most five ships, sizes from the fleet, each ship
    /// on the grid, no two ships touching.
    pub open spec fn wf(self) -> bool {
        ships_wf(self.ships@)
    }

    /// Some ship of the placement occupies `p` or one of its neighbours.
    pub open spec fn covers(self, p: Position) -> bool {
        seq_covers(self.ships@, p)
    }

    /// A placement with the same ships.
    pub fn copied(&self) -> (r: Placement)
        ensures
            r.ships@ == self.ships@,
    {
        let mut ships: Vec<Ship> = Vec::new();
        let mut i: usize = 0;
        while i < self.ships.len()
            invariant
                0 <= i <= self.ships@.len(),
                ships@ == self.ships@.take(i as int),
            decreases self.ships@.len() - i,
        {
            ships.push(self.ships[i]);
            assert(ships@ =~= self.ships@.take(i + 1));
            i = i + 1;
        }
        assert(ships@ =~= self.ships@);
        Placement { ships }
    }

    /// The empty placement.
    pub fn new() -> (r: Placement)
        ensures
            r.ships@ == Seq::<Ship>::empty(),
            r.wf(),
    {
        Placement { ships: Vec::new() }
    }

    /// Whether a ship of the placement occupies or touches `cell`.
    pub fn is_occupied(&self, cell: &Position) -> (r: bool)
        requires
            self.wf(),
            cell.wf(),
        ensures
            r == self.covers(*cell),
    {
        let mut i: usize = 0;
        while i < self.ships.len()
            invariant
                self.wf(),
                cell.wf(),
                0 <= i <= self.ships@.len(),
                forall|k: int| 0 <= k < i ==> !(#[trigger] self.ships@[k].touches(*cell)),
            decreases self.ships@.len() - i,
        {
            if self.ships[i].collides_with(cell) {
                assert(self.ships@[i as int].touches(*cell));
                return true;
            }
            i = i + 1;
        }
        false
    }

    /// The fleet sizes not placed yet, largest first.
    pub fn get_missing_ship_sizes(&self) -> (r: Vec<i8>)
        ensures
            r@ == missing_sizes(self.ships@),
    {
        let mut missing: Vec<i8> = vec![5, 4, 3, 3, 2];
        assert(missing@ =~= fleet());
        let mut i: usize = 0;
        while i < self.ships.len()
            invariant
                0 <= i <= self.ships@.len(),
                missing@ == missing_sizes(self.ships@.take(i as int)),
            decreases self.ships@.len() - i,
        {
            let size = self.ships[i].size;
            assert(self.ships@.take(i + 1).drop_last() =~= self.ships@.take(i as int));
            let mut j: usize = 0;
            while j < missing.len() && missing[j] != size
                invariant
                    0 <= j <= missing@.len(),
                    forall|k: int| 0 <= k < j ==> missing@[k] != size,
                decreases missing@.len() - j,
            {
                j = j + 1;
            }
            if j < missing.len() {
                proof {
                    lemma_remove_first_at(missing@, size, j as int);
                }
                missing.remove(j);
            } else {
                proof {
                    lemma_remove_first_absent(missing@, size);
                }
            }
            i = i + 1;
        }
        assert(self.ships@.take(self.ships@.len() as int) =~= self.ships@);
        missing
    }

    /// Adds `ship` when it breaks none of the fleet rules; otherwise reports the
    /// first broken rule and leaves the placement unchanged.
    pub fn add_ship(&mut self, ship: Ship) -> (r: Result<(), PlacementError>)
        requires
            old(self).wf(),
            ship.wf(),
        ensures
            final(self).wf(),
            final(self).ships@ == add_or_keep(old(self).ships@, ship),
            r is Err ==> final(self).ships@ == old(self).ships@,
            r == (match add_error(old(self).ships@, ship) {
                Some(e) => Err(e),
                None => Ok(()),
            }),
    {
        proof {
            lemma_add_keeps_wf(self.ships@, ship);
        }
        if self.ships.len() >= 5 {
            return Err(PlacementError::TooManyShips);
        }
        let missing = self.get_missing_ship_sizes();
        let mut found = false;
        let mut j: usize = 0;
        while j < missing.len()
            invariant
                0 <= j <= missing@.len(),
                found == (exists|k: int| 0 <= k < j && missing@[k] == ship.size),
            decreases missing@.len() - j,
        {
            if missing[j] == ship.size {
                found = true;
            }
            j = j + 1;
        }
        if !found {
            return Err(PlacementError::InvalidSize);
        }
        let mut i: usize = 0;
        while i < self.ships.len()
            invariant
                self.wf(),
                ship.wf(),
                self.ships@.len() < 5,
                missing_sizes(self.ships@).contains(ship.size),
                0 <= i <= self.ships@.len(),
                forall|k: int| 0 <= k < i ==> !(#[trigger] self.ships@[k].collides(ship)),
            decreases self.ships@.len() - i,
        {
            if self.ships[i].collides_with(&ship) {
                assert(self.ships@[i as int].collides(ship));
                return Err(PlacementError::Collision);
            }
            i = i + 1;
        }
        let end = ship.get_end();
        if ship.start.x < 0 || ship.start.x > 9 || ship.start.y < 0 || ship.start.y > 9 || end.x
            < 0 || end.x > 9 || end.y < 0 || end.y > 9 {
            return Err(PlacementError::OutOfBounds);
        }
        self.ships.push(ship);
        Ok(())
    }

    /// Whether the whole fleet of five ships is placed.
    pub fn all_ships_placed(&self) -> (r: bool)
        ensures
            r == (self.ships@.len() == 5),
    {
        self.ships.len() == 5
    }
}

} // verus!
