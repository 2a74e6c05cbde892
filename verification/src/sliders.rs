//! The control panel: one slider per joint, listed from the base to the
//! tool, each bounded by the joint's range of motion.
use vstd::prelude::*;
use crate::rotor::{Rotor, ROTOR_COUNT};

verus! {

/// Bound, in degrees either way, of the sliders of all joints but the z wrist.
pub const SLIDER_LIMIT_DEGREES: i64 = 170;

/// The range, in degrees, of a joint's target slider: the calibrated limit
/// either way for the z wrist, and 170 degrees either way for every other
/// joint.
pub fn slider_range(rotor: Rotor, wrist_z_limit: i32) -> (r: (i64, i64))
    ensures
        rotor == Rotor::Wz ==> r == (-(wrist_z_limit as int) as i64, wrist_z_limit as i64),
        rotor != Rotor::Wz ==> r == (-170i64, 170i64),
{
    match rotor {
        Rotor::Wz => {
            let limit: i64 = wrist_z_limit as i64;
            (-limit, limit)
        },
        _ => (-SLIDER_LIMIT_DEGREES, SLIDER_LIMIT_DEGREES),
    }
}

/// Entry `a` of `rotors` comes before entry `b` on the panel: its joint is
/// nearer the base, or it is the same joint and `a` came first.
pub open spec fn listed_before(rotors: Seq<Rotor>, a: int, b: int) -> bool {
    ||| rotors[a].rank() < rotors[b].rank()
    ||| rotors[a].rank() == rotors[b].rank() && a < b
}

/// How many of the first `m` entries are joints nearer the base than
/// position `k`.
pub open spec fn count_below(rotors: Seq<Rotor>, k: int, m: int) -> nat
    decreases m,
{
    if m <= 0 {
        0
    } else {
        count_below(rotors, k, m - 1) + if rotors[m - 1].rank() < k {
            1nat
        } else {
            0nat
        }
    }
}

/// How many of the first `m` entries are the joint at position `k`.
pub open spec fn count_at(rotors: Seq<Rotor>, k: int, m: int) -> nat
    decreases m,
{
    if m <= 0 {
        0
    } else {
        count_at(rotors, k, m - 1) + if rotors[m - 1].rank() == k {
            1nat
        } else {
            0nat
        }
    }
}

proof fn lemma_count_next_rank(rotors: Seq<Rotor>, k: int, m: int)
    ensures
        count_below(rotors, k + 1, m) == count_below(rotors, k, m) + count_at(rotors, k, m),
    decreases m,
{
    if m > 0 {
        lemma_count_next_rank(rotors, k, m - 1);
    }
}

proof fn lemma_count_no_rank(rotors: Seq<Rotor>, m: int)
    ensures
        count_below(rotors, 0, m) == 0,
    decreases m,
{
    if m > 0 {
        lemma_count_no_rank(rotors, m - 1);
    }
}

proof fn lemma_count_all_ranks(rotors: Seq<Rotor>, m: int)
    requires
        0 <= m,
    ensures
        count_below(rotors, 5, m) == m,
    decreases m,
{
    if m > 0 {
        lemma_count_all_ranks(rotors, m - 1);
    }
}

/// The order in which the panel lists the entries `rotors`: their indices,
/// sorted by joint from the base to the tool, entries of the same joint
/// kept in the order given.
pub fn slider_order(rotors: &Vec<Rotor>) -> (order: Vec<usize>)
    ensures
        order.len() == rotors.len(),
        forall|i: int| 0 <= i < order.len() ==> #[trigger] order[i] < rotors.len(),
        forall|x: usize| x < rotors.len() ==> #[trigger] order@.contains(x),
        forall|i: int, j: int|
            0 <= i < j < order.len() ==> listed_before(
                rotors@,
                #[trigger] order[i] as int,
                #[trigger] order[j] as int,
            ),
{
    let n: usize = rotors.len();
    let ghost rs: Seq<Rotor> = rotors@;
    let mut order: Vec<usize> = Vec::new();
    let mut k: usize = 0;
    proof {
        lemma_count_no_rank(rs, n as int);
    }
    while k < ROTOR_COUNT
        invariant
            k <= ROTOR_COUNT,
            n == rotors.len(),
            rs == rotors@,
            forall|i: int|
                0 <= i < order.len() ==> #[trigger] order[i] < n && rs[order[i] as int].rank() < k,
            forall|x: usize| x < n && rs[x as int].rank() < k ==> #[trigger] order@.contains(x),
            forall|i: int, j: int|
                0 <= i < j < order.len() ==> listed_before(
                    rs,
                    #[trigger] order[i] as int,
                    #[trigger] order[j] as int,
                ),
            order.len() == count_below(rs, k as int, n as int),
        decreases ROTOR_COUNT - k,
    {
        let mut j: usize = 0;
        while j < n
            invariant
                k < ROTOR_COUNT,
                j <= n,
                n == rotors.len(),
                rs == rotors@,
                forall|i: int|
                    0 <= i < order.len() ==> #[trigger] order[i] < n && (rs[order[i] as int].rank()
                        < k || (rs[order[i] as int].rank() == k && order[i] < j)),
                forall|x: usize|
                    x < n && (rs[x as int].rank() < k || (rs[x as int].rank() == k && x < j))
                        ==> #[trigger] order@.contains(x),
                forall|i: int, j2: int|
                    0 <= i < j2 < order.len() ==> listed_before(
                        rs,
                        #[trigger] order[i] as int,
                        #[trigger] order[j2] as int,
                    ),
                order.len() == count_below(rs, k as int, n as int) + count_at(
                    rs,
                    k as int,
                    j as int,
                ),
            decreases n - j,
        {
            if rotors[j].index() == k {
                let ghost before: Seq<usize> = order@;
                order.push(j);
                assert forall|x: usize|
                    x < n && (rs[x as int].rank() < k || (rs[x as int].rank() == k && x < j + 1)) implies #[trigger] order@.contains(
                    x,
                ) by {
                    if x == j {
                        assert(order@[before.len() as int] == j);
                    } else {
                        assert(before.contains(x));
                        let w: int = choose|w: int| 0 <= w < before.len() && before[w] == x;
                        assert(order@[w] == x);
                    }
                }
            } else {
                assert forall|x: usize|
                    x < n && (rs[x as int].rank() < k || (rs[x as int].rank() == k && x < j + 1)) implies #[trigger] order@.contains(
                    x,
                ) by {
                    if x == j {
                        assert(rs[x as int].rank() != k);
                    }
                }
            }
            j = j + 1;
        }
        proof {
            lemma_count_next_rank(rs, k as int, n as int);
        }
        k = k + 1;
    }
    proof {
        lemma_count_all_ranks(rs, n as int);
    }
    order
}

} // verus!
