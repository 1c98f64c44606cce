//! Core indices and the named plans that partition them into groups.

use crate::pool::{pairwise_disjoint, CoreGroupPool};
use vstd::prelude::*;

verus! {

/// An index into the visible cores, in enumeration order.
#[derive(Clone, Copy, Debug, PartialEq, Eq, Structural)]
pub struct CoreIndex(usize);

impl View for CoreIndex {
    type V = nat;

    closed spec fn view(&self) -> nat {
        self.0 as nat
    }
}

impl CoreIndex {
    /// The index as a number.
    pub fn index(&self) -> (r: usize)
        ensures
            r == self@,
    {
        self.0
    }
}

/// The numbers behind a group of core indices.
pub open spec fn group_indices(group: Seq<CoreIndex>) -> Seq<nat> {
    Seq::new(group.len(), |i: int| group[i]@)
}

/// The numbers behind the groups of a plan.
pub open spec fn plan_indices(groups: Seq<Seq<CoreIndex>>) -> Seq<Seq<nat>> {
    Seq::new(groups.len(), |g: int| group_indices(groups[g]))
}

/// The four consecutive cores of block `block`.
pub open spec fn block_cores(block: nat) -> Seq<nat> {
    seq![4 * block, 4 * block + 1, 4 * block + 2, 4 * block + 3]
}

/// The blocks that the DELL7525 plan leaves to the two GPUs: cores 16-19 and
/// 80-83 beside the first, 32-35 and 96-99 beside the second.
pub open spec fn dell7525_reserved(block: nat) -> bool {
    block == 4 || block == 8 || block == 20 || block == 24
}

/// The block behind group `g` of the DELL7525 plan: the blocks below 32 that
/// are not reserved, in increasing order.
pub open spec fn dell7525_block(g: nat) -> nat {
    if g < 4 {
        g
    } else if g < 7 {
        g + 1
    } else if g < 18 {
        (g + 2) as nat
    } else if g < 21 {
        (g + 3) as nat
    } else {
        (g + 4) as nat
    }
}

/// The DELL7525 plan: 28 groups of four cores.
pub open spec fn dell7525_plan() -> Seq<Seq<nat>> {
    Seq::new(28, |g: int| block_cores(dell7525_block(g as nat)))
}

/// The plan of any name that is not recognized: one group, cores 0 to 3.
pub open spec fn fallback_plan() -> Seq<Seq<nat>> {
    seq![block_cores(0)]
}

/// The groups of the plan called `name`, in order.
pub open spec fn resolve_plan(name: Seq<char>) -> Seq<Seq<nat>> {
    if name == "DELL7525"@ {
        dell7525_plan()
    } else {
        fallback_plan()
    }
}

/// No core number occurs in two different groups of `plan`.
pub open spec fn groups_disjoint(plan: Seq<Seq<nat>>) -> bool {
    forall|a: int, b: int, i: int, j: int|
        #![trigger plan[a][i], plan[b][j]]
        0 <= a < plan.len() && 0 <= b < plan.len() && a != b && 0 <= i < plan[a].len() && 0 <= j
            < plan[b].len() ==> plan[a][i] != plan[b][j]
}

/// Core `core` belongs to some group of `plan`.
pub open spec fn plan_covers(plan: Seq<Seq<nat>>, core: nat) -> bool {
    exists|g: int, i: int| 0 <= g < plan.len() && 0 <= i < plan[g].len() && #[trigger] plan[g][i] == core
}

/// Whatever the name, the groups of its plan share no core.
pub proof fn lemma_plan_groups_disjoint(name: Seq<char>)
    ensures
        groups_disjoint(resolve_plan(name)),
{
    let plan = resolve_plan(name);
    assert forall|a: int, b: int, i: int, j: int|
        0 <= a < plan.len() && 0 <= b < plan.len() && a != b && 0 <= i < plan[a].len() && 0 <= j
            < plan[b].len() implies #[trigger] plan[a][i] != #[trigger] plan[b][j] by {
        assert(dell7525_block(a as nat) != dell7525_block(b as nat));
    }
}

/// A name that is not recognized resolves to one group, the cores 0 to 3.
pub proof fn lemma_unrecognized_plan(name: Seq<char>)
    requires
        name != "DELL7525"@,
    ensures
        resolve_plan(name) == seq![seq![0nat, 1nat, 2nat, 3nat]],
{
    assert(block_cores(0) =~= seq![0nat, 1nat, 2nat, 3nat]);
    assert(resolve_plan(name) =~= seq![seq![0nat, 1nat, 2nat, 3nat]]);
}

/// The DELL7525 plan has 28 groups of four cores, and they hold the cores
/// below 128 but for the reserved blocks: 16-19, 32-35, 80-83 and 96-99.
pub proof fn lemma_dell7525_cores()
    ensures
        resolve_plan("DELL7525"@) == dell7525_plan(),
        dell7525_plan().len() == 28,
        forall|g: int| 0 <= g < 28 ==> (#[trigger] dell7525_plan()[g]).len() == 4,
        forall|core: nat|
            plan_covers(dell7525_plan(), core) <==> core < 128 && !dell7525_reserved(core / 4),
{
    let plan = dell7525_plan();
    assert forall|core: nat| core < 128 && !dell7525_reserved(core / 4) implies plan_covers(
        plan,
        core,
    ) by {
        let block = core / 4;
        let g: int = if block < 4 {
            block as int
        } else if block < 8 {
            block - 1
        } else if block < 20 {
            block - 2
        } else if block < 24 {
            block - 3
        } else {
            block - 4
        };
        assert(dell7525_block(g as nat) == block);
        assert(plan[g][(core % 4) as int] == core);
    }
    assert forall|core: nat| plan_covers(plan, core) implies core < 128 && !dell7525_reserved(
        core / 4,
    ) by {
        let (g, i) = choose|g: int, i: int|
            0 <= g < plan.len() && 0 <= i < plan[g].len() && #[trigger] plan[g][i] == core;
        assert(core == 4 * dell7525_block(g as nat) + i);
    }
}

/// Builds the pool of the plan called `core_plan`, every group free. A name
/// that is not recognized selects the fallback plan; no name is an error.
pub fn core_groups(core_plan: String) -> (res: Option<CoreGroupPool>)
    ensures
        res matches Some(pool) && {
            &&& plan_indices(pool.groups()) == resolve_plan(core_plan@)
            &&& pairwise_disjoint(pool.groups())
            &&& pool.held() == Seq::new(pool.groups().len(), |g: int| false)
        },
{
    let custom_groups = if core_plan == "DELL7525".to_owned() {
        vec![
            vec![CoreIndex(0), CoreIndex(1), CoreIndex(2), CoreIndex(3)],
            vec![CoreIndex(4), CoreIndex(5), CoreIndex(6), CoreIndex(7)],
            vec![CoreIndex(8), CoreIndex(9), CoreIndex(10), CoreIndex(11)],
            vec![CoreIndex(12), CoreIndex(13), CoreIndex(14), CoreIndex(15)],
            vec![CoreIndex(20), CoreIndex(21), CoreIndex(22), CoreIndex(23)],
            vec![CoreIndex(24), CoreIndex(25), CoreIndex(26), CoreIndex(27)],
            vec![CoreIndex(28), CoreIndex(29), CoreIndex(30), CoreIndex(31)],
            vec![CoreIndex(36), CoreIndex(37), CoreIndex(38), CoreIndex(39)],
            vec![CoreIndex(40), CoreIndex(41), CoreIndex(42), CoreIndex(43)],
            vec![CoreIndex(44), CoreIndex(45), CoreIndex(46), CoreIndex(47)],
            vec![CoreIndex(48), CoreIndex(49), CoreIndex(50), CoreIndex(51)],
            vec![CoreIndex(52), CoreIndex(53), CoreIndex(54), CoreIndex(55)],
            vec![CoreIndex(56), CoreIndex(57), CoreIndex(58), CoreIndex(59)],
            vec![CoreIndex(60), CoreIndex(61), CoreIndex(62), CoreIndex(63)],
            vec![CoreIndex(64), CoreIndex(65), CoreIndex(66), CoreIndex(67)],
            vec![CoreIndex(68), CoreIndex(69), CoreIndex(70), CoreIndex(71)],
            vec![CoreIndex(72), CoreIndex(73), CoreIndex(74), CoreIndex(75)],
            vec![CoreIndex(76), CoreIndex(77), CoreIndex(78), CoreIndex(79)],
            vec![CoreIndex(84), CoreIndex(85), CoreIndex(86), CoreIndex(87)],
            vec![CoreIndex(88), CoreIndex(89), CoreIndex(90), CoreIndex(91)],
            vec![CoreIndex(92), CoreIndex(93), CoreIndex(94), CoreIndex(95)],
            vec![CoreIndex(100), CoreIndex(101), CoreIndex(102), CoreIndex(103)],
            vec![CoreIndex(104), CoreIndex(105), CoreIndex(106), CoreIndex(107)],
            vec![CoreIndex(108), CoreIndex(109), CoreIndex(110), CoreIndex(111)],
            vec![CoreIndex(112), CoreIndex(113), CoreIndex(114), CoreIndex(115)],
            vec![CoreIndex(116), CoreIndex(117), CoreIndex(118), CoreIndex(119)],
            vec![CoreIndex(120), CoreIndex(121), CoreIndex(122), CoreIndex(123)],
            vec![CoreIndex(124), CoreIndex(125), CoreIndex(126), CoreIndex(127)],
        ]
    } else {
        vec![vec![CoreIndex(0), CoreIndex(1), CoreIndex(2), CoreIndex(3)]]
    };
    let pool = CoreGroupPool::new(custom_groups);
    proof {
        assert(plan_indices(pool.groups()) =~~= resolve_plan(core_plan@));
    }
    Some(pool)
}

} // verus!
