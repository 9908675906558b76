//! Partitioning accepted connections into fixed-size groups.
//!
//! Connections are taken in arrival order and sliced into consecutive
//! groups of exactly `group_size`. Only full groups are dispatched: a
//! trailing partial group would break the fixed-size assumption baked into
//! id assignment and the init-frame parameters, so its clients are counted
//! as unplaced instead.

use vstd::prelude::*;
use vstd::arithmetic::div_mod::lemma_fundamental_div_mod;
use vstd::arithmetic::mul::{lemma_mul_inequality, lemma_mul_is_distributive_add_other_way};

verus! {

/// How many full groups `client_number` accepted connections yield at
/// `group_size` clients per group.
pub fn full_group_count(client_number: usize, group_size: usize) -> (n: usize)
    requires
        group_size > 0,
    ensures
        n == client_number as int / group_size as int,
{
    client_number / group_size
}

/// How many trailing clients fit no full group. These are never dispatched;
/// reporting the count makes the dropped stragglers an observable outcome.
pub fn unplaced_clients(client_number: usize, group_size: usize) -> (n: usize)
    requires
        group_size > 0,
    ensures
        n == client_number as int % group_size as int,
        n < group_size,
{
    client_number % group_size
}

/// The connection-index ranges of the dispatched groups, in dispatch order.
/// The group at position `g` (wire group id `g + 1`) takes the connections
/// at indices `[g * group_size, (g + 1) * group_size)`. Every range covers
/// exactly `group_size` connections and lies within the accepted ones: a
/// short trailing group never appears.
pub fn group_bounds(client_number: usize, group_size: usize) -> (bounds: Vec<(usize, usize)>)
    requires
        group_size > 0,
    ensures
        bounds@.len() == client_number as int / group_size as int,
        forall|g: int|
            0 <= g < bounds@.len() ==> (#[trigger] bounds@[g]).0 == g * group_size && bounds@[g].1
                == (g + 1) * group_size,
        forall|g: int|
            0 <= g < bounds@.len() ==> (#[trigger] bounds@[g]).1 - bounds@[g].0 == group_size
                && bounds@[g].1 <= client_number,
{
    let n_groups: usize = client_number / group_size;
    proof {
        lemma_fundamental_div_mod(client_number as int, group_size as int);
    }
    let mut bounds: Vec<(usize, usize)> = Vec::new();
    let mut g: usize = 0;
    let mut start: usize = 0;
    while g < n_groups
        invariant
            group_size > 0,
            n_groups == client_number as int / group_size as int,
            n_groups * group_size <= client_number,
            g <= n_groups,
            start == g * group_size,
            bounds@.len() == g,
            forall|k: int|
                0 <= k < g ==> (#[trigger] bounds@[k]).0 == k * group_size && bounds@[k].1 == (k
                    + 1) * group_size,
        decreases n_groups - g,
    {
        proof {
            lemma_mul_inequality(g as int + 1, n_groups as int, group_size as int);
            lemma_mul_is_distributive_add_other_way(group_size as int, g as int, 1);
        }
        let end: usize = start + group_size;
        bounds.push((start, end));
        g = g + 1;
        start = end;
    }
    proof {
        assert forall|k: int|
            0 <= k < bounds@.len() implies (#[trigger] bounds@[k]).1 - bounds@[k].0 == group_size
                && bounds@[k].1 <= client_number by {
            lemma_mul_inequality(k + 1, n_groups as int, group_size as int);
            lemma_mul_is_distributive_add_other_way(group_size as int, k, 1);
        }
    }
    bounds
}

/// The wire client id of the first client of group `group_id` (1-based):
/// ids are assigned contiguously from `(group_id - 1) * group_size`.
pub fn starting_id(group_id: i32, group_size: i32) -> (id: i32)
    requires
        1 <= group_id,
        0 < group_size,
        group_id * group_size <= i32::MAX,
    ensures
        id == (group_id - 1) * group_size,
{
    proof {
        lemma_mul_is_distributive_add_other_way(group_size as int, group_id as int - 1, 1);
        vstd::arithmetic::mul::lemma_mul_nonnegative(group_id as int - 1, group_size as int);
    }
    group_id * group_size - group_size
}

} // verus!
