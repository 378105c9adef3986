use vstd::prelude::*;

use crate::error::PipelineError;

verus! {

/// A half-open range `[start, end)` of token positions.
#[derive(Debug, Clone, Copy, PartialEq, Eq, Structural)]
pub struct Window {
    pub start: usize,
    pub end: usize,
}

/// The planner can make progress: there is room for text and the cursor steps
/// forward by `available - overlap > 0` tokens.
pub open spec fn valid_budget(available: int, overlap: int) -> bool {
    0 <= overlap < available
}

pub open spec fn min(a: int, b: int) -> int {
    if a <= b { a } else { b }
}

/// Window `k` starts `k` steps into the input and holds at most `available` tokens.
pub open spec fn window_at(total: int, available: int, overlap: int, k: int) -> (int, int) {
    let start = k * (available - overlap);
    (start, min(start + available, total))
}

/// Window `k` ends because the budget was reached while tokens remain.
pub open spec fn truncated_by_budget(total: int, available: int, overlap: int, k: int) -> bool {
    k * (available - overlap) + available < total
}

/// `ws` is the plan for `total` tokens: window `k` is `window_at(k)`, every window but
/// the last was cut by the budget, and the last one reaches the end of the input.
pub open spec fn is_plan(ws: Seq<Window>, total: int, available: int, overlap: int) -> bool {
    &&& ws.len() >= 1
    &&& forall|k: int|
        0 <= k < ws.len() ==> (ws[k].start as int, ws[k].end as int) == window_at(
            total,
            available,
            overlap,
            k,
        )
    &&& forall|k: int| 0 <= k < ws.len() - 1 ==> truncated_by_budget(total, available, overlap, k)
    &&& !truncated_by_budget(total, available, overlap, ws.len() - 1)
}

/// Splits `total` tokens into windows of at most `available` tokens, each one after the
/// first repeating the last `overlap` tokens of its predecessor.
pub fn plan_windows(total: usize, available: usize, overlap: usize) -> (r: Result<
    Vec<Window>,
    PipelineError,
>)
    ensures
        r is Err <==> !valid_budget(available as int, overlap as int),
        r is Err ==> r->Err_0 is Configuration,
        r is Ok ==> is_plan(r->Ok_0@, total as int, available as int, overlap as int),
{
    if overlap >= available {
        return Err(PipelineError::Configuration);
    }
    let step: usize = available - overlap;
    let mut ws: Vec<Window> = Vec::new();
    let mut cursor: usize = 0;
    assert(ws.len() == 0);
    assert(ws.len() * step == 0) by (nonlinear_arith)
        requires
            ws.len() == 0,
    ;
    let ghost a = available as int;
    let ghost o = overlap as int;
    let ghost n = total as int;
    loop
        invariant
            a == available as int,
            o == overlap as int,
            n == total as int,
            0 < step == a - o,
            0 <= o < a,
            cursor as int == ws.len() * step,
            cursor <= total,
            forall|k: int|
                0 <= k < ws.len() ==> (ws[k].start as int, ws[k].end as int) == window_at(
                    n,
                    a,
                    o,
                    k,
                ),
            forall|k: int| 0 <= k < ws.len() ==> truncated_by_budget(n, a, o, k),
        decreases total - cursor,
    {
        proof {
            assert(ws.len() * step == ws.len() * (a - o));
        }
        if total - cursor <= available {
            ws.push(Window { start: cursor, end: total });
            assert((ws.len() - 1) * (a - o) == cursor);
            return Ok(ws);
        }
        let end: usize = cursor + available;
        ws.push(Window { start: cursor, end });
        proof {
            let k = ws.len() - 1;
            assert((k + 1) * step == k * step + step) by (nonlinear_arith);
        }
        cursor = cursor + step;
    }
}

/// The windows read back in order, each one after the first without the `overlap`
/// tokens it repeats from its predecessor.
pub open spec fn stitched<T>(tokens: Seq<T>, ws: Seq<Window>, overlap: int, j: int) -> Seq<T>
    decreases j,
{
    if j <= 0 {
        Seq::empty()
    } else if j == 1 {
        tokens.subrange(ws[0].start as int, ws[0].end as int)
    } else {
        stitched(tokens, ws, overlap, j - 1) + tokens.subrange(
            ws[j - 1].start + overlap,
            ws[j - 1].end as int,
        )
    }
}

/// Each window of a plan lies inside the input, holds at most `available` tokens, and a
/// window after the first starts `overlap` tokens before its predecessor ends.
pub proof fn lemma_window_bounds(ws: Seq<Window>, total: int, available: int, overlap: int, k: int)
    requires
        valid_budget(available, overlap),
        total >= 0,
        is_plan(ws, total, available, overlap),
        0 <= k < ws.len(),
    ensures
        0 <= ws[k].start <= ws[k].end <= total,
        k == 0 ==> ws[k].start == 0,
        k == ws.len() - 1 ==> ws[k].end == total,
        ws[k].end - ws[k].start <= available,
        k < ws.len() - 1 ==> ws[k].end == ws[k].start + available,
        k > 0 ==> ws[k].start + overlap == ws[k - 1].end,
        k > 0 ==> ws[k].start + overlap <= ws[k].end,
{
    let step = available - overlap;
    assert((ws[k].start as int, ws[k].end as int) == window_at(total, available, overlap, k));
    assert(ws[k].start == k * step);
    assert(k * step >= 0) by (nonlinear_arith)
        requires
            k >= 0,
            step > 0,
    ;
    if k < ws.len() - 1 {
        assert(truncated_by_budget(total, available, overlap, k));
    }
    if k == 0 {
        assert(k * step == 0) by (nonlinear_arith)
            requires
                k == 0,
        ;
    } else {
        assert(k * step == (k - 1) * step + step) by (nonlinear_arith);
        assert(truncated_by_budget(total, available, overlap, k - 1));
        assert((ws[k - 1].start as int, ws[k - 1].end as int) == window_at(
            total,
            available,
            overlap,
            k - 1,
        ));
        assert(ws[k - 1].start == (k - 1) * step);
        assert(ws[k - 1].end == ws[k - 1].start + available);
    }
}

/// Reading the windows back in order and dropping the repeated tokens at the start of
/// each later window gives the whole input, in order.
pub proof fn lemma_plan_covers_input<T>(tokens: Seq<T>, ws: Seq<Window>, available: int, overlap: int)
    requires
        valid_budget(available, overlap),
        is_plan(ws, tokens.len() as int, available, overlap),
    ensures
        stitched(tokens, ws, overlap, ws.len() as int) == tokens,
{
    let n = tokens.len() as int;
    lemma_stitched_prefix(tokens, ws, available, overlap, ws.len() as int);
    lemma_window_bounds(ws, n, available, overlap, ws.len() - 1);
    assert(tokens.subrange(0, n) =~= tokens);
}

proof fn lemma_stitched_prefix<T>(tokens: Seq<T>, ws: Seq<Window>, available: int, overlap: int, j: int)
    requires
        valid_budget(available, overlap),
        is_plan(ws, tokens.len() as int, available, overlap),
        1 <= j <= ws.len(),
    ensures
        stitched(tokens, ws, overlap, j) == tokens.subrange(0, ws[j - 1].end as int),
    decreases j,
{
    let n = tokens.len() as int;
    lemma_window_bounds(ws, n, available, overlap, j - 1);
    if j > 1 {
        lemma_stitched_prefix(tokens, ws, available, overlap, j - 1);
        lemma_window_bounds(ws, n, available, overlap, j - 2);
        assert(tokens.subrange(0, ws[j - 1].end as int) =~= tokens.subrange(
            0,
            ws[j - 2].end as int,
        ) + tokens.subrange(ws[j - 2].end as int, ws[j - 1].end as int));
    }
}

/// When a window was cut by the budget, its last `overlap` tokens are the first
/// `overlap` tokens of the next window.
pub proof fn lemma_overlap_exact<T>(
    tokens: Seq<T>,
    ws: Seq<Window>,
    available: int,
    overlap: int,
    k: int,
)
    requires
        valid_budget(available, overlap),
        is_plan(ws, tokens.len() as int, available, overlap),
        0 <= k < ws.len() - 1,
    ensures
        ws[k].end - ws[k].start == available,
        tokens.subrange(ws[k].end - overlap, ws[k].end as int) == tokens.subrange(
            ws[k + 1].start as int,
            ws[k + 1].start + overlap,
        ),
{
    lemma_window_bounds(ws, tokens.len() as int, available, overlap, k);
    lemma_window_bounds(ws, tokens.len() as int, available, overlap, k + 1);
}

/// A non-empty input takes at most `ceil(total / (available - overlap))` windows.
pub proof fn lemma_window_count_bound(ws: Seq<Window>, total: int, available: int, overlap: int)
    requires
        valid_budget(available, overlap),
        total > 0,
        is_plan(ws, total, available, overlap),
    ensures
        ws.len() <= (total + (available - overlap) - 1) / (available - overlap),
{
    let step = available - overlap;
    let len = ws.len() as int;
    if len >= 2 {
        assert(truncated_by_budget(total, available, overlap, len - 2));
        assert((len - 1) * step == (len - 2) * step + step) by (nonlinear_arith);
    } else {
        assert((len - 1) * step == 0) by (nonlinear_arith)
            requires
                len == 1,
        ;
    }
    assert((len - 1) * step < total);
    assert(len <= (total + step - 1) / step) by (nonlinear_arith)
        requires
            (len - 1) * step < total,
            step > 0,
            len >= 1,
    ;
}

/// An input that fits the budget is planned as one window holding every token.
pub proof fn lemma_single_window(ws: Seq<Window>, total: int, available: int, overlap: int)
    requires
        valid_budget(available, overlap),
        0 <= total <= available,
        is_plan(ws, total, available, overlap),
    ensures
        ws.len() == 1,
        ws[0] == (Window { start: 0, end: total as usize }),
{
    assert(!truncated_by_budget(total, available, overlap, 0));
    assert(window_at(total, available, overlap, 0) == (0int, total));
}

} // verus!
