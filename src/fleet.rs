use rand::Rng;
use vstd::prelude::*;

use crate::placement::{fleet, missing_sizes, Placement};
use crate::position::{Direction, Position};
use crate::ship::Ship;

verus! {

/// How many random spots are tried for one ship before the generator falls
/// back to a fixed layout.
pub const MAX_ATTEMPTS: u32 = 10000;

/// Relies on rand::Rng::gen_range on the thread-local generator: a value
/// drawn from `0..n`.
#[verifier::external_body]
fn random_below(n: i8) -> (r: i8)
    requires
        n > 0,
    ensures
        0 <= r < n,
{
    rand::thread_rng().gen_range(0..n)
}

/// A random direction.
fn random_direction() -> (r: Direction) {
    if random_below(2) == 0 {
        Direction::Horizontal
    } else {
        Direction::Vertical
    }
}

/// A random cell of the grid.
fn random_position() -> (r: Position)
    ensures
        r.on_grid(),
{
    let x = random_below(10);
    let y = random_below(10);
    Position { x, y }
}

/// The fixed layout: the fleet in order along `x`, one ship on each even row.
pub fn fallback_fleet() -> (r: Placement)
    ensures
        r.wf(),
        r.ships@.len() == 5,
{
    let sizes: Vec<i8> = vec![5, 4, 3, 3, 2];
    assert(sizes@ =~= fleet());
    let mut p = Placement::new();
    let mut i: usize = 0;
    while i < 5
        invariant
            sizes@ == fleet(),
            0 <= i <= 5,
            p.wf(),
            p.ships@.len() == i,
            missing_sizes(p.ships@) == fleet().subrange(i as int, 5),
            forall|j: int|
                0 <= j < i ==> (#[trigger] p.ships@[j]).start.x == 0 && p.ships@[j].start.y == 2
                    * j && p.ships@[j].direction == Direction::Horizontal && 2 <= p.ships@[j].size
                    <= 5,
        decreases 5 - i,
    {
        let ship = Ship {
            start: Position { x: 0, y: 2 * i as i8 },
            size: sizes[i],
            direction: Direction::Horizontal,
        };
        let ghost before = p.ships@;
        proof {
            lemma_take_fleet_head(i as int);
            assert(missing_sizes(p.ships@).contains(ship.size)) by {
                assert(missing_sizes(p.ships@)[0] == ship.size);
            }
            assert forall|k: int| 0 <= k < p.ships@.len() implies !(
            #[trigger] p.ships@[k]).collides(ship) by {
                assert(p.ships@[k].start.y == 2 * k);
            }
        }
        let res = p.add_ship(ship);
        assert(res is Ok);
        proof {
            assert(p.ships@.drop_last() =~= before);
            assert(fleet().subrange(i as int, 5).subrange(1, 5 - i) =~= fleet().subrange(i + 1, 5));
            assert(p.ships@[i as int] == ship);
        }
        i = i + 1;
    }
    p
}

/// The missing sizes while the fleet is placed in order start with the size
/// of the next ship.
proof fn lemma_take_fleet_head(i: int)
    requires
        0 <= i < 5,
    ensures
        fleet().subrange(i, 5)[0] == fleet()[i],
        fleet().subrange(i, 5).len() == 5 - i,
{
}

/// Places the fleet `5, 4, 3, 3, 2` in that order, each ship at a random
/// start and direction tried until it may be added; after `MAX_ATTEMPTS`
/// failed tries for one ship, the fixed layout of `fallback_fleet` is used.
pub fn place_ships() -> (r: Placement)
    ensures
        r.wf(),
        r.ships@.len() == 5,
{
    let sizes: Vec<i8> = vec![5, 4, 3, 3, 2];
    assert(sizes@ =~= fleet());
    let mut placement = Placement::new();
    let mut i: usize = 0;
    while i < 5
        invariant
            sizes@ == fleet(),
            0 <= i <= 5,
            placement.wf(),
            placement.ships@.len() == i,
            missing_sizes(placement.ships@) == fleet().subrange(i as int, 5),
        decreases 5 - i,
    {
        let size = sizes[i];
        proof {
            lemma_take_fleet_head(i as int);
        }
        let mut placed = false;
        let mut attempts: u32 = 0;
        while !placed && attempts < MAX_ATTEMPTS
            invariant
                sizes@ == fleet(),
                0 <= i < 5,
                size == fleet()[i as int],
                placement.wf(),
                !placed ==> placement.ships@.len() == i && missing_sizes(placement.ships@)
                    == fleet().subrange(i as int, 5),
                placed ==> placement.ships@.len() == i + 1 && missing_sizes(placement.ships@)
                    == fleet().subrange(i + 1, 5),
                attempts <= MAX_ATTEMPTS,
            decreases MAX_ATTEMPTS - attempts,
        {
            let start = random_position();
            let direction = random_direction();
            let ship = Ship { start, size, direction };
            let ghost before = placement.ships@;
            if placement.add_ship(ship).is_ok() {
                proof {
                    assert(placement.ships@.drop_last() =~= before);
                    assert(fleet().subrange(i as int, 5).subrange(1, 5 - i) =~= fleet().subrange(
                        i + 1,
                        5,
                    ));
                }
                placed = true;
            }
            attempts = attempts + 1;
        }
        if !placed {
            return fallback_fleet();
        }
        i = i + 1;
    }
    placement
}

} // verus!
