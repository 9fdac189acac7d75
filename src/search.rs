use vstd::prelude::*;
use crate::policy::SidePolicy;

verus! {

/// One forward simulation that the search scores.
/// `Unchanged` keeps the ego's current policy for the whole horizon; `Stay` runs
/// the operating policy for the whole horizon; `Switch` runs the operating policy
/// for `depth` layers and then the candidate at index `candidate` to the end.
#[derive(Copy, Clone, Debug, PartialEq, Eq, Structural)]
pub enum Branch {
    Unchanged,
    Stay,
    Switch { depth: u32, candidate: usize },
}

/// What a branch stands for once it wins: keep the current policy, commit to the
/// operating policy, or switch to the candidate at the given index.
#[derive(Copy, Clone, Debug, PartialEq, Eq, Structural)]
pub enum Choice {
    NoSwitch,
    Operating,
    Candidate(usize),
}

/// The switches to candidates `0..n` at switch depth `depth`, skipping those whose
/// id is the operating policy's.
pub open spec fn candidate_branches(ids: Seq<u32>, op: u32, depth: u32, n: nat) -> Seq<Branch>
    decreases n,
{
    if n == 0 {
        Seq::empty()
    } else {
        let rest = candidate_branches(ids, op, depth, (n - 1) as nat);
        if ids[n - 1] != op {
            rest.push(Branch::Switch { depth, candidate: (n - 1) as usize })
        } else {
            rest
        }
    }
}

/// The branches for switch depths `1..=k` of a search `d` layers deep.
pub open spec fn layer_branches(ids: Seq<u32>, op: u32, d: nat, k: nat) -> Seq<Branch>
    decreases k,
{
    if k == 0 {
        Seq::empty()
    } else {
        let rest = layer_branches(ids, op, d, (k - 1) as nat);
        if k == d {
            rest.push(Branch::Stay)
        } else {
            rest + candidate_branches(ids, op, k as u32, ids.len())
        }
    }
}

/// Every branch of a search `d` layers deep, in the order in which they are compared:
/// the unchanged policy, then by increasing switch depth, then by candidate order.
pub open spec fn search_branches(ids: Seq<u32>, op: u32, d: nat) -> Seq<Branch> {
    seq![Branch::Unchanged] + layer_branches(ids, op, d, d)
}

pub open spec fn choice_of(b: Branch) -> Choice {
    match b {
        Branch::Unchanged => Choice::NoSwitch,
        Branch::Stay => Choice::Operating,
        Branch::Switch { depth, candidate } => if depth == 1 {
            Choice::Candidate(candidate)
        } else {
            Choice::Operating
        },
    }
}

/// `k` is the first position of a least cost.
pub open spec fn is_first_min(costs: Seq<u64>, k: int) -> bool {
    &&& 0 <= k < costs.len()
    &&& forall|j: int| 0 <= j < costs.len() ==> costs[k] <= #[trigger] costs[j]
    &&& forall|j: int| 0 <= j < k ==> costs[k] < #[trigger] costs[j]
}

pub open spec fn ids_of(policies: Seq<SidePolicy>) -> Seq<u32> {
    policies.map_values(|p: SidePolicy| p.active_id())
}

/// The policy that the search hands back when `choice` won.
pub open spec fn decision(unchanged: SidePolicy, candidates: Seq<SidePolicy>, layer_t: u64, choice: Choice) -> SidePolicy {
    match choice {
        Choice::NoSwitch => unchanged,
        Choice::Operating => SidePolicy::Delayed {
            from: Box::new(unchanged.operating()),
            to: Box::new(unchanged.operating()),
            duration: layer_t,
            elapsed: 0,
        },
        Choice::Candidate(i) => SidePolicy::Delayed {
            from: Box::new(unchanged.operating()),
            to: Box::new(candidates[i as int]),
            duration: layer_t,
            elapsed: 0,
        },
    }
}

/// The branches that a search `search_depth` layers deep scores, in the order in
/// which they are compared, for candidates with the ids `candidate_ids` and an
/// operating policy with the id `operating_id`.
pub fn dcp_branches(candidate_ids: &Vec<u32>, operating_id: u32, search_depth: u32) -> (r: Vec<Branch>)
    ensures
        r@ == search_branches(candidate_ids@, operating_id, search_depth as nat),
{
    let mut r: Vec<Branch> = Vec::new();
    r.push(Branch::Unchanged);
    let mut k: u32 = 0;
    while k < search_depth
        invariant
            k <= search_depth,
            r@ == seq![Branch::Unchanged] + layer_branches(candidate_ids@, operating_id, search_depth as nat, k as nat),
        decreases search_depth - k,
    {
        k = k + 1;
        let ghost before = r@;
        if k == search_depth {
            r.push(Branch::Stay);
            assert(r@ =~= seq![Branch::Unchanged] + layer_branches(candidate_ids@, operating_id, search_depth as nat, k as nat));
        } else {
            let mut i: usize = 0;
            while i < candidate_ids.len()
                invariant
                    i <= candidate_ids@.len(),
                    r@ == before + candidate_branches(candidate_ids@, operating_id, k, i as nat),
                decreases candidate_ids@.len() - i,
            {
                if candidate_ids[i] != operating_id {
                    r.push(Branch::Switch { depth: k, candidate: i });
                }
                i = i + 1;
                assert(r@ =~= before + candidate_branches(candidate_ids@, operating_id, k, i as nat));
            }
            assert(r@ =~= seq![Branch::Unchanged] + layer_branches(candidate_ids@, operating_id, search_depth as nat, k as nat));
        }
    }
    r
}

/// The position of the first least cost: later branches displace the best only
/// when strictly cheaper.
pub fn best_branch(costs: &Vec<u64>) -> (k: usize)
    requires
        costs@.len() > 0,
    ensures
        is_first_min(costs@, k as int),
{
    let mut best: usize = 0;
    let mut i: usize = 1;
    while i < costs.len()
        invariant
            1 <= i <= costs@.len(),
            best < i,
            forall|j: int| 0 <= j < i ==> costs@[best as int] <= #[trigger] costs@[j],
            forall|j: int| 0 <= j < best ==> costs@[best as int] < #[trigger] costs@[j],
        decreases costs@.len() - i,
    {
        if costs[i] < costs[best] {
            best = i;
        }
        i = i + 1;
    }
    best
}

/// What a winning branch stands for.
pub fn branch_choice(b: Branch) -> (c: Choice)
    ensures
        c == choice_of(b),
{
    match b {
        Branch::Unchanged => Choice::NoSwitch,
        Branch::Stay => Choice::Operating,
        Branch::Switch { depth, candidate } => if depth == 1 {
            Choice::Candidate(candidate)
        } else {
            Choice::Operating
        },
    }
}

/// The first position of a least cost (unique, see `lemma_first_min_unique`).
pub open spec fn first_min_index(costs: Seq<u64>) -> int {
    choose|k: int| is_first_min(costs, k)
}

/// The policy that a search returns, given the cost of each of its branches.
pub open spec fn search_decision(
    unchanged: SidePolicy,
    candidates: Seq<SidePolicy>,
    search_depth: nat,
    layer_t: u64,
    costs: Seq<u64>,
) -> SidePolicy {
    let branches = search_branches(ids_of(candidates), unchanged.operating().active_id(), search_depth);
    decision(unchanged, candidates, layer_t, choice_of(branches[first_min_index(costs)]))
}

pub proof fn lemma_first_min_unique(costs: Seq<u64>, k1: int, k2: int)
    requires
        is_first_min(costs, k1),
        is_first_min(costs, k2),
    ensures
        k1 == k2,
{
    if k1 < k2 {
        assert(costs[k2] < costs[k1]);
    } else if k2 < k1 {
        assert(costs[k1] < costs[k2]);
    }
}

proof fn lemma_first_min_exists(costs: Seq<u64>) -> (k: int)
    requires
        costs.len() > 0,
    ensures
        is_first_min(costs, k),
        k == first_min_index(costs),
    decreases costs.len(),
{
    let k = if costs.len() == 1 {
        0
    } else {
        let p = costs.drop_last();
        let kp = lemma_first_min_exists(p);
        assert(forall|j: int| 0 <= j < p.len() ==> p[j] == costs[j]);
        if costs.last() < costs[kp] {
            (costs.len() - 1) as int
        } else {
            kp
        }
    };
    assert(is_first_min(costs, k));
    lemma_first_min_unique(costs, k, first_min_index(costs));
    k
}

proof fn lemma_candidate_branches_bounded(ids: Seq<u32>, op: u32, depth: u32, n: nat)
    requires
        n <= ids.len(),
    ensures
        forall|i: int| 0 <= i < candidate_branches(ids, op, depth, n).len() ==>
            (#[trigger] candidate_branches(ids, op, depth, n)[i] matches Branch::Switch { depth: d, candidate: c }
                && d == depth && c < ids.len()),
    decreases n,
{
    if n > 0 {
        lemma_candidate_branches_bounded(ids, op, depth, (n - 1) as nat);
    }
}

proof fn lemma_layer_branches_bounded(ids: Seq<u32>, op: u32, d: nat, k: nat)
    ensures
        forall|i: int| 0 <= i < layer_branches(ids, op, d, k).len() ==>
            (#[trigger] layer_branches(ids, op, d, k)[i] matches Branch::Switch { candidate: c, .. }
                ==> c < ids.len()),
    decreases k,
{
    if k > 0 {
        let rest = layer_branches(ids, op, d, (k - 1) as nat);
        lemma_layer_branches_bounded(ids, op, d, (k - 1) as nat);
        if k != d {
            let cb = candidate_branches(ids, op, k as u32, ids.len());
            lemma_candidate_branches_bounded(ids, op, k as u32, ids.len());
            assert forall|i: int| 0 <= i < (rest + cb).len() implies
                (#[trigger] (rest + cb)[i] matches Branch::Switch { candidate: c, .. } ==> c < ids.len()) by {
                if i >= rest.len() {
                    assert((rest + cb)[i] == cb[i - rest.len()]);
                }
            }
        }
    }
}

/// The ids of the given policies, in order.
pub fn policy_ids(policies: &Vec<SidePolicy>) -> (r: Vec<u32>)
    ensures
        r@ == ids_of(policies@),
{
    let mut r: Vec<u32> = Vec::new();
    let mut i: usize = 0;
    while i < policies.len()
        invariant
            i <= policies@.len(),
            r@ == ids_of(policies@.subrange(0, i as int)),
        decreases policies@.len() - i,
    {
        r.push(policies[i].policy_id());
        i = i + 1;
        assert(r@ =~= ids_of(policies@.subrange(0, i as int)));
    }
    assert(policies@.subrange(0, i as int) =~= policies@);
    r
}

/// Decides whether and how the ego policy switches, from the cost of every branch
/// of the search, given in the order of `dcp_branches` (the ensemble cost of each
/// forward simulation, as keys that order as the costs do). The first branch of
/// least cost wins, so that a tie keeps the current policy, and an earlier or
/// shallower switch wins over a later one. Keeping the current policy returns it
/// as it is; any other outcome is a switch from the operating policy that
/// completes after one layer of `layer_t` ticks.
pub fn dcp_tree_search(
    unchanged: &SidePolicy,
    candidates: &Vec<SidePolicy>,
    search_depth: u32,
    layer_t: u64,
    costs: &Vec<u64>,
) -> (r: SidePolicy)
    requires
        costs@.len() == search_branches(
            ids_of(candidates@),
            unchanged.operating().active_id(),
            search_depth as nat,
        ).len(),
    ensures
        r == search_decision(*unchanged, candidates@, search_depth as nat, layer_t, costs@),
{
    let operating = unchanged.operating_policy();
    let ids = policy_ids(candidates);
    let branches = dcp_branches(&ids, operating.policy_id(), search_depth);
    let k = best_branch(costs);
    proof {
        let kk = lemma_first_min_exists(costs@);
        lemma_first_min_unique(costs@, k as int, kk);
        lemma_layer_branches_bounded(ids@, operating.active_id(), search_depth as nat, search_depth as nat);
        if k > 0 {
            assert(branches@[k as int] == layer_branches(ids@, operating.active_id(), search_depth as nat, search_depth as nat)[k - 1]);
        }
    }
    match branch_choice(branches[k]) {
        Choice::NoSwitch => unchanged.duplicate(),
        Choice::Operating => SidePolicy::delayed(operating.duplicate(), operating, layer_t),
        Choice::Candidate(i) => SidePolicy::delayed(operating, candidates[i].duplicate(), layer_t),
    }
}

/// When the unchanged policy costs no more than any other branch, the search keeps
/// it: a tie never displaces the current policy.
pub proof fn lemma_tie_keeps_unchanged(
    unchanged: SidePolicy,
    candidates: Seq<SidePolicy>,
    search_depth: nat,
    layer_t: u64,
    costs: Seq<u64>,
)
    requires
        costs.len() == search_branches(ids_of(candidates), unchanged.operating().active_id(), search_depth).len(),
        forall|j: int| 0 <= j < costs.len() ==> costs[0] <= #[trigger] costs[j],
    ensures
        search_decision(unchanged, candidates, search_depth, layer_t, costs) == unchanged,
{
    assert(is_first_min(costs, 0));
    lemma_first_min_exists(costs);
    lemma_first_min_unique(costs, 0, first_min_index(costs));
}

/// The search has no randomness of its own: the same policy, candidates, depth,
/// layer length and branch costs always give the same decision.
pub proof fn lemma_search_deterministic(
    unchanged: SidePolicy,
    candidates: Seq<SidePolicy>,
    search_depth: nat,
    layer_t: u64,
    costs1: Seq<u64>,
    costs2: Seq<u64>,
)
    requires
        costs1 == costs2,
    ensures
        search_decision(unchanged, candidates, search_depth, layer_t, costs1)
            == search_decision(unchanged, candidates, search_depth, layer_t, costs2),
{
}

} // verus!
