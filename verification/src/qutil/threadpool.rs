use vstd::prelude::*;

verus! {

/// How a thread pool spreads jobs over its workers.
#[derive(Clone, Copy, PartialEq, Eq, Structural, Debug)]
pub enum DistributionStrategy {
    /// Gives each job to the worker with the fewest pending jobs.
    EqualLoad,
    /// Gives jobs out in turn, without comparing the workers' loads.
    Fast,
}

/// Whether worker `k` has the fewest pending jobs, and every worker before it has more: the
/// first of the least loaded workers.
pub open spec fn first_least_loaded(loads: Seq<usize>, k: int) -> bool {
    &&& 0 <= k < loads.len()
    &&& forall|j: int| 0 <= j < loads.len() ==> loads[k] <= loads[j]
    &&& forall|j: int| 0 <= j < k ==> loads[k] < loads[j]
}

/// The worker that gets the next job under `strategy`, given each worker's pending job count
/// and the turn of the fair strategy, together with the turn after. Under equal load it is the
/// first least loaded worker, unless every worker is saturated at the largest count; in turn, it
/// is the worker at the turn, the turn starting over past the last worker.
pub fn choose_worker(loads: &Vec<usize>, strategy: DistributionStrategy, cursor: usize) -> (r: (
    Option<usize>,
    usize,
))
    ensures
        strategy == DistributionStrategy::EqualLoad ==> {
            &&& r.1 == cursor
            &&& r.0 matches Some(k) ==> first_least_loaded(loads@, k as int) && loads@[k as int]
                < usize::MAX
            &&& r.0 is None ==> forall|j: int| 0 <= j < loads@.len() ==> loads@[j] == usize::MAX
        },
        strategy == DistributionStrategy::Fast ==> {
            let turn = if cursor >= loads@.len() {
                0
            } else {
                cursor as int
            };
            &&& r.0 == (if turn < loads@.len() {
                Some(turn as usize)
            } else {
                None::<usize>
            })
            &&& r.1 == turn + 1
        },
{
    match strategy {
        DistributionStrategy::EqualLoad => {
            let mut best: Option<usize> = None;
            let mut min_pending: usize = usize::MAX;
            let mut i: usize = 0;
            while i < loads.len()
                invariant
                    strategy == DistributionStrategy::EqualLoad,
                    0 <= i <= loads@.len(),
                    forall|j: int| 0 <= j < i ==> loads@[j] > 0,
                    best is None ==> min_pending == usize::MAX && forall|j: int|
                        0 <= j < i ==> loads@[j] == usize::MAX,
                    best matches Some(k) ==> k < i && loads@[k as int] == min_pending
                        && min_pending < usize::MAX && (forall|j: int|
                        0 <= j < i ==> loads@[k as int] <= loads@[j]) && (forall|j: int|
                        0 <= j < k ==> loads@[k as int] < loads@[j]),
                decreases loads@.len() - i,
            {
                let pending = loads[i];
                if pending == 0 {
                    return (Some(i), cursor);
                } else if pending < min_pending {
                    min_pending = pending;
                    best = Some(i);
                }
                i += 1;
            }
            (best, cursor)
        },
        DistributionStrategy::Fast => {
            let turn = if cursor >= loads.len() {
                0
            } else {
                cursor
            };
            let chosen = if turn < loads.len() {
                Some(turn)
            } else {
                None
            };
            (chosen, turn + 1)
        },
    }
}

/// The sum of the pending job counts.
pub open spec fn total_load(loads: Seq<usize>) -> nat
    decreases loads.len(),
{
    if loads.len() == 0 {
        0
    } else {
        total_load(loads.drop_last()) + loads.last() as nat
    }
}

/// The number of workers for a total load: one worker per `load_factor` pending jobs, held
/// between the bounds, where the lower bound is at least one and the upper bound at least the
/// lower.
pub open spec fn sized_for(load: nat, load_factor: nat, min: nat, max: nat) -> nat {
    let lo = if min < 1 {
        1
    } else {
        min
    };
    let hi = if max < lo {
        lo
    } else {
        max
    };
    let want = load / load_factor;
    if want < lo {
        lo
    } else if want > hi {
        hi
    } else {
        want
    }
}

/// The size a pool resizes to, given each worker's pending job count.
pub fn target_size(loads: &Vec<usize>, load_factor: usize, min: usize, max: usize) -> (n: usize)
    requires
        load_factor > 0,
        total_load(loads@) <= usize::MAX,
    ensures
        n == sized_for(total_load(loads@), load_factor as nat, min as nat, max as nat),
{
    let mut load: usize = 0;
    let mut i: usize = 0;
    while i < loads.len()
        invariant
            0 <= i <= loads@.len(),
            load == total_load(loads@.take(i as int)),
            total_load(loads@) <= usize::MAX,
        decreases loads@.len() - i,
    {
        proof {
            assert(loads@.take(i + 1).drop_last() =~= loads@.take(i as int));
            lemma_total_load_prefix(loads@, i + 1);
        }
        load = load + loads[i];
        i += 1;
    }
    proof {
        assert(loads@.take(loads@.len() as int) =~= loads@);
    }
    let lo = if min < 1 {
        1
    } else {
        min
    };
    let hi = if max < lo {
        lo
    } else {
        max
    };
    let want = load / load_factor;
    if want < lo {
        lo
    } else if want > hi {
        hi
    } else {
        want
    }
}

/// The load of a prefix is at most the whole load.
proof fn lemma_total_load_prefix(loads: Seq<usize>, k: int)
    requires
        0 <= k <= loads.len(),
    ensures
        total_load(loads.take(k)) <= total_load(loads),
    decreases loads.len() - k,
{
    if k < loads.len() {
        lemma_total_load_prefix(loads, k + 1);
        assert(loads.take(k + 1).drop_last() =~= loads.take(k));
    } else {
        assert(loads.take(k) =~= loads);
    }
}

/// A resized pool keeps at least one worker and stays within its bounds: never fewer than the
/// lower bound, never more than the larger of the two bounds.
pub proof fn law_size_within_bounds(load: nat, load_factor: nat, min: nat, max: nat)
    requires
        load_factor > 0,
    ensures
        sized_for(load, load_factor, min, max) >= 1,
        sized_for(load, load_factor, min, max) >= min,
        sized_for(load, load_factor, min, max) <= if max < min {
            if min < 1 {
                1
            } else {
                min
            }
        } else if max < 1 {
            1
        } else {
            max
        },
{
}

} // verus!
