//! What holds of waves: a step waits for nothing that it does not have to wait for.

use vstd::prelude::*;

use crate::plan::{seen_at, wait, wave, Step};

verus! {

proof fn lemma_seen(steps: Seq<Step>, k: int, d: int)
    requires
        0 <= k <= steps.len(),
    ensures
        0 <= seen_at(steps, k, d) < k || seen_at(steps, k, d) == -1,
        seen_at(steps, k, d) >= 0 ==> steps[seen_at(steps, k, d)].node == d,
    decreases k,
{
    if k > 0 && steps[k - 1].node != d {
        lemma_seen(steps, k - 1, d);
    }
}

/// Whether what a step depends on comes in waves before a given one, as far as it
/// stands before the step.
pub open spec fn settled_before(steps: Seq<Step>, k: int, w: int) -> bool {
    forall|q: int|
        0 <= q < k && steps[k].dependencies.contains((#[trigger] steps[q]).node) ==> wave(steps, q)
            < w
}

proof fn lemma_wait(steps: Seq<Step>, k: int, m: int, w: int)
    requires
        0 <= k < steps.len(),
        0 <= m <= steps[k].dependencies.len(),
        settled_before(steps, k, w),
        w >= 0,
    ensures
        0 <= wait(steps, k, m) <= w,
    decreases m,
{
    if m > 0 {
        let d = steps[k].dependencies[m - 1];
        let q = seen_at(steps, k, d);
        lemma_wait(steps, k, m - 1, w);
        lemma_seen(steps, k, d);
        if 0 <= q < k {
            assert(steps[k].dependencies.contains(steps[q].node));
            assert(wave(steps, q) < w);
        }
    }
}

/// The first step is in the first wave. A step that is no barrier is in the wave of
/// the step before it, unless it depends on a step of that wave; a barrier is in the
/// next wave. So waves follow each other without a gap, and no step waits longer than
/// it has to.
pub proof fn steps_run_as_soon_as_they_can(steps: Seq<Step>, k: int)
    requires
        0 <= k < steps.len(),
    ensures
        k == 0 ==> wave(steps, k) == 0,
        k > 0 && !steps[k].barrier && settled_before(steps, k, wave(steps, k - 1)) ==> wave(
            steps,
            k,
        ) == wave(steps, k - 1),
        k > 0 ==> wave(steps, k - 1) <= wave(steps, k) <= wave(steps, k - 1) + 1,
        k > 0 && steps[k].barrier ==> wave(steps, k) == wave(steps, k - 1) + 1,
        forall|q: int| 0 <= q <= k ==> 0 <= #[trigger] wave(steps, q) <= wave(steps, k),
    decreases k,
{
    let count = steps[k].dependencies.len() as int;
    if k == 0 {
        assert(settled_before(steps, k, 0));
        lemma_wait(steps, k, count, 0);
    } else {
        steps_run_as_soon_as_they_can(steps, k - 1);
        let w = wave(steps, k - 1);
        assert(w >= 0);
        assert(settled_before(steps, k, w + 1));
        lemma_wait(steps, k, count, w + 1);
        if settled_before(steps, k, w) {
            lemma_wait(steps, k, count, w);
        }
        assert(w <= wave(steps, k) <= w + 1);
        assert forall|q: int| 0 <= q <= k implies 0 <= #[trigger] wave(steps, q) <= wave(
            steps,
            k,
        ) by {
            if q < k {
                assert(wave(steps, q) <= w);
            }
        }
    }
}

} // verus!
