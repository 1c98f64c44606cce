//! The pool of core groups: one cell per group, held by at most one holder.

use crate::plan::CoreIndex;
use vstd::prelude::*;

verus! {

/// No core occurs in two different groups.
pub open spec fn pairwise_disjoint(groups: Seq<Seq<CoreIndex>>) -> bool {
    forall|a: int, b: int, i: int, j: int|
        #![trigger groups[a][i], groups[b][j]]
        0 <= a < groups.len() && 0 <= b < groups.len() && a != b && 0 <= i < groups[a].len() && 0
            <= j < groups[b].len() ==> groups[a][i] != groups[b][j]
}

/// The position of the first free cell, if any cell is free.
pub open spec fn first_free(held: Seq<bool>) -> Option<int> {
    if exists|i: int| 0 <= i < held.len() && !held[i] {
        Some(choose|i: int| 0 <= i < held.len() && !held[i] && forall|j: int| 0 <= j < i ==> held[j])
    } else {
        None
    }
}

/// The cells after one checkout: the first free cell, if any, is now held.
pub open spec fn after_checkout(held: Seq<bool>) -> Seq<bool> {
    match first_free(held) {
        Some(i) => held.update(i, true),
        None => held,
    }
}

/// The cells after the guard over cell `slot` is released.
pub open spec fn after_release(held: Seq<bool>, slot: int) -> Seq<bool> {
    if 0 <= slot < held.len() {
        held.update(slot, false)
    } else {
        held
    }
}

/// The cells after `n` checkouts in a row, none released in between.
pub open spec fn after_checkouts(held: Seq<bool>, n: nat) -> Seq<bool>
    decreases n,
{
    if n == 0 {
        held
    } else {
        after_checkout(after_checkouts(held, (n - 1) as nat))
    }
}

/// The number of free cells.
pub open spec fn free_count(held: Seq<bool>) -> nat
    decreases held.len(),
{
    if held.len() == 0 {
        0
    } else {
        free_count(held.drop_last()) + if held.last() {
            0nat
        } else {
            1nat
        }
    }
}

/// The first free cell is the one that is free while all before it are held.
pub proof fn lemma_first_free_is(held: Seq<bool>, i: int)
    requires
        0 <= i < held.len(),
        !held[i],
        forall|j: int| 0 <= j < i ==> held[j],
    ensures
        first_free(held) == Some(i),
{
    let c = choose|c: int| 0 <= c < held.len() && !held[c] && forall|j: int| 0 <= j < c ==> held[j];
    assert(c == i) by {
        if c < i {
            assert(held[c]);
        } else if i < c {
            assert(held[i]);
        }
    }
}

/// A checkout finds a cell exactly when some cell is free, and the cell it
/// finds is free and comes before every other free cell.
pub proof fn lemma_first_free(held: Seq<bool>)
    ensures
        first_free(held) is None <==> forall|j: int| 0 <= j < held.len() ==> held[j],
        first_free(held) matches Some(i) ==> 0 <= i < held.len() && !held[i] && forall|j: int|
            0 <= j < i ==> held[j],
{
    if exists|i: int| 0 <= i < held.len() && !held[i] {
        let w = choose|i: int| 0 <= i < held.len() && !held[i];
        lemma_least_free(held, w);
    }
}

/// Below any free cell there is a first one.
proof fn lemma_least_free(held: Seq<bool>, w: int)
    requires
        0 <= w < held.len(),
        !held[w],
    ensures
        exists|i: int| 0 <= i <= w && !held[i] && forall|j: int| 0 <= j < i ==> held[j],
    decreases w,
{
    if exists|k: int| 0 <= k < w && !held[k] {
        let k = choose|k: int| 0 <= k < w && !held[k];
        lemma_least_free(held, k);
    } else {
        assert(!held[w] && forall|j: int| 0 <= j < w ==> held[j]);
    }
}

/// Taking or releasing one cell changes the number of free cells by one.
pub proof fn lemma_free_count_update(held: Seq<bool>, slot: int, now_held: bool)
    requires
        0 <= slot < held.len(),
    ensures
        free_count(held) <= held.len(),
        held[slot] == now_held ==> free_count(held.update(slot, now_held)) == free_count(held),
        held[slot] && !now_held ==> free_count(held.update(slot, now_held)) == free_count(held) + 1,
        !held[slot] && now_held ==> free_count(held.update(slot, now_held)) + 1 == free_count(held),
    decreases held.len(),
{
    let next = held.update(slot, now_held);
    if slot == held.len() - 1 {
        assert(next.drop_last() =~= held.drop_last());
        lemma_free_count_bounds(held.drop_last());
    } else {
        assert(next.drop_last() =~= held.drop_last().update(slot, now_held));
        lemma_free_count_update(held.drop_last(), slot, now_held);
    }
    if held[slot] == now_held {
        assert(next =~= held);
    }
}

/// No cell is free exactly when the count of free cells is zero, and the
/// count never exceeds the number of cells.
pub proof fn lemma_free_count_bounds(held: Seq<bool>)
    ensures
        free_count(held) <= held.len(),
        free_count(held) == 0 <==> forall|j: int| 0 <= j < held.len() ==> held[j],
        free_count(held) == held.len() <==> forall|j: int| 0 <= j < held.len() ==> !held[j],
    decreases held.len(),
{
    if held.len() > 0 {
        let front = held.drop_last();
        lemma_free_count_bounds(front);
        assert(forall|j: int| 0 <= j < front.len() ==> front[j] == held[j]);
        if free_count(held) == 0 {
            assert forall|j: int| 0 <= j < held.len() implies held[j] by {
                if j < front.len() {
                    assert(front[j]);
                }
            }
        }
        if free_count(held) == held.len() {
            assert forall|j: int| 0 <= j < held.len() implies !held[j] by {
                if j < front.len() {
                    assert(!front[j]);
                }
            }
        }
    }
}

/// Capacity is conserved. A checkout succeeds exactly when a cell is free
/// and then leaves one free cell fewer; the cell it takes was free, so no
/// group ever has two holders. Releasing a held cell leaves one more.
pub proof fn lemma_capacity_conserved(held: Seq<bool>, slot: int)
    ensures
        free_count(held) <= held.len(),
        first_free(held) is Some <==> free_count(held) > 0,
        first_free(held) matches Some(i) ==> !held[i] && free_count(after_checkout(held)) + 1
            == free_count(held),
        first_free(held) is None ==> after_checkout(held) == held,
        0 <= slot < held.len() && held[slot] ==> free_count(after_release(held, slot))
            == free_count(held) + 1,
{
    lemma_first_free(held);
    lemma_free_count_bounds(held);
    if let Some(i) = first_free(held) {
        lemma_free_count_update(held, i, true);
    }
    if 0 <= slot < held.len() {
        lemma_free_count_update(held, slot, false);
    }
}

/// From a pool of `n` groups with every cell free, the first `n` checkouts
/// succeed and take the groups one by one in plan order, so that they hold
/// `n` different groups; while all are held, one more checkout finds nothing.
pub proof fn lemma_fresh_pool_serves_each_group_once(n: nat, k: nat)
    requires
        k <= n,
    ensures
        after_checkouts(Seq::new(n, |g: int| false), k) == Seq::new(n, |g: int| g < k),
        k < n ==> first_free(after_checkouts(Seq::new(n, |g: int| false), k)) == Some(k as int),
        k == n ==> first_free(after_checkouts(Seq::new(n, |g: int| false), k)) is None,
    decreases k,
{
    let fresh = Seq::new(n, |g: int| false);
    let now = Seq::new(n, |g: int| g < k);
    if k == 0 {
        assert(after_checkouts(fresh, k) =~= now);
    } else {
        lemma_fresh_pool_serves_each_group_once(n, (k - 1) as nat);
        let before = Seq::new(n, |g: int| g < k - 1);
        assert(first_free(before) == Some(k - 1));
        assert(before.update(k - 1, true) =~= now);
    }
    if k < n {
        lemma_first_free_is(now, k as int);
    } else {
        lemma_first_free(now);
    }
}

/// While every group is held, releasing one guard makes exactly one further
/// checkout succeed: it hands out the released group, and the next finds
/// nothing.
pub proof fn lemma_release_admits_one_checkout(held: Seq<bool>, slot: int)
    requires
        0 <= slot < held.len(),
        forall|j: int| 0 <= j < held.len() ==> held[j],
    ensures
        first_free(held) is None,
        first_free(after_release(held, slot)) == Some(slot),
        after_checkout(after_release(held, slot)) == held,
        first_free(after_checkout(after_release(held, slot))) is None,
{
    lemma_first_free(held);
    let released = after_release(held, slot);
    lemma_first_free_is(released, slot);
    assert(released.update(slot, true) =~= held);
}

/// One group of cores and whether a guard over it is outstanding.
#[derive(Debug)]
struct GroupCell {
    cores: Vec<CoreIndex>,
    held: bool,
}

/// The groups of one plan, each in a cell that is either free or held.
#[derive(Debug)]
pub struct CoreGroupPool {
    cells: Vec<GroupCell>,
}

/// Exclusive use of one group of a pool, from checkout until release. It
/// holds its own copy of the group's cores.
#[derive(Debug)]
pub struct CoreGroupGuard {
    slot: usize,
    cores: Vec<CoreIndex>,
}

impl CoreGroupGuard {
    /// The position in the pool of the group that this guard holds.
    pub closed spec fn slot(&self) -> int {
        self.slot as int
    }

    /// The cores of the held group, in plan order.
    pub closed spec fn cores(&self) -> Seq<CoreIndex> {
        self.cores@
    }

    /// The position in the pool of the group that this guard holds.
    pub fn group_index(&self) -> (r: usize)
        ensures
            r == self.slot(),
    {
        self.slot
    }
}

impl std::ops::Deref for CoreGroupGuard {
    type Target = Vec<CoreIndex>;

    /// The cores of the held group, in plan order.
    fn deref(&self) -> (r: &Vec<CoreIndex>)
        ensures
            r@ == self.cores(),
    {
        &self.cores
    }
}

impl CoreGroupPool {
    /// The groups, in plan order.
    pub closed spec fn groups(&self) -> Seq<Seq<CoreIndex>> {
        Seq::new(self.cells@.len(), |g: int| self.cells@[g].cores@)
    }

    /// For each group, whether a guard over it is outstanding.
    pub closed spec fn held(&self) -> Seq<bool> {
        Seq::new(self.cells@.len(), |g: int| self.cells@[g].held)
    }

    /// A pool over `groups` with every cell free.
    pub(crate) fn new(groups: Vec<Vec<CoreIndex>>) -> (pool: CoreGroupPool)
        requires
            pairwise_disjoint(Seq::new(groups@.len(), |g: int| groups@[g]@)),
        ensures
            pool.groups() == Seq::new(groups@.len(), |g: int| groups@[g]@),
            pool.held() == Seq::new(groups@.len(), |g: int| false),
    {
        let mut cells: Vec<GroupCell> = Vec::new();
        let mut i: usize = 0;
        while i < groups.len()
            invariant
                i <= groups@.len(),
                cells@.len() == i,
                forall|k: int| 0 <= k < i ==> !cells@[k].held && cells@[k].cores@ == groups@[k]@,
            decreases groups@.len() - i,
        {
            let cores = groups[i].clone();
            cells.push(GroupCell { cores, held: false });
            i += 1;
        }
        let pool = CoreGroupPool { cells };
        proof {
            assert(pool.groups() =~= Seq::new(groups@.len(), |g: int| groups@[g]@));
            assert(pool.held() =~= Seq::new(groups@.len(), |g: int| false));
        }
        pool
    }

    /// The number of groups, which is also the number of cells.
    pub fn len(&self) -> (n: usize)
        ensures
            n == self.groups().len(),
            n == self.held().len(),
    {
        self.cells.len()
    }
}

/// Hands out the first group in plan order that nobody holds, or `None` when
/// every group is held. Never waits.
pub fn checkout_core_group(pool: &mut CoreGroupPool) -> (res: Option<CoreGroupGuard>)
    ensures
        final(pool).groups() == old(pool).groups(),
        final(pool).held() == after_checkout(old(pool).held()),
        match res {
            Some(guard) => {
                &&& first_free(old(pool).held()) == Some(guard.slot())
                &&& guard.cores() == old(pool).groups()[guard.slot()]
            },
            None => first_free(old(pool).held()) is None,
        },
{
    let n = pool.cells.len();
    let mut i: usize = 0;
    while i < n
        invariant
            i <= n,
            n == pool.cells@.len(),
            *pool == *old(pool),
            forall|j: int| 0 <= j < i ==> pool.cells@[j].held,
        decreases n - i,
    {
        if !pool.cells[i].held {
            let cores = pool.cells[i].cores.clone();
            pool.cells[i].held = true;
            proof {
                lemma_first_free_is(old(pool).held(), i as int);
                assert(pool.groups() =~= old(pool).groups());
                assert(pool.held() =~= old(pool).held().update(i as int, true));
            }
            return Some(CoreGroupGuard { slot: i, cores });
        }
        i += 1;
    }
    None
}

/// Gives the group of `guard` back to the pool: its cell is free again.
pub fn release_core_group(pool: &mut CoreGroupPool, guard: CoreGroupGuard)
    ensures
        final(pool).groups() == old(pool).groups(),
        final(pool).held() == after_release(old(pool).held(), guard.slot()),
{
    if guard.slot < pool.cells.len() {
        pool.cells[guard.slot].held = false;
        proof {
            assert(pool.groups() =~= old(pool).groups());
            assert(pool.held() =~= old(pool).held().update(guard.slot(), false));
        }
    }
}

/// Two guards that hold different groups of one pool share no core.
pub proof fn lemma_guards_do_not_overlap(
    groups: Seq<Seq<CoreIndex>>,
    first: CoreGroupGuard,
    second: CoreGroupGuard,
)
    requires
        pairwise_disjoint(groups),
        0 <= first.slot() < groups.len(),
        0 <= second.slot() < groups.len(),
        first.slot() != second.slot(),
        first.cores() == groups[first.slot()],
        second.cores() == groups[second.slot()],
    ensures
        forall|i: int, j: int|
            0 <= i < first.cores().len() && 0 <= j < second.cores().len() ==> first.cores()[i]
                != second.cores()[j],
{
    assert forall|i: int, j: int|
        0 <= i < first.cores().len() && 0 <= j < second.cores().len() implies first.cores()[i]
        != second.cores()[j] by {
        assert(groups[first.slot()][i] != groups[second.slot()][j]);
    }
}

} // verus!
