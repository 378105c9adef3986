use vstd::prelude::*;

use crate::error::PipelineError;
use crate::planner::{is_plan, plan_windows, valid_budget, Window};
use crate::refine::Refinement;
use crate::tokenizer::{cl100k_pieces, join_tokens, joined, token_views, tokenizes, Tokenizer};

verus! {

/// The most tokens the generation service accepts in one request.
pub const MAX_TOTAL_TOKENS: usize = 3500;

/// How many tokens each window repeats from the one before it.
pub const WINDOW_OVERLAP: usize = 200;

/// The text of each planned window.
pub open spec fn window_texts(tokens: Seq<Seq<char>>, ws: Seq<Window>) -> Seq<Seq<char>> {
    Seq::new(ws.len(), |k: int| joined(tokens.subrange(ws[k].start as int, ws[k].end as int)))
}

/// The tokens left for the diff once the instructions have taken `reserved` of the
/// `max_total` tokens of a request; fails unless the rest leaves the planner a positive
/// step after `overlap`.
pub fn check_budget(max_total: usize, reserved: usize, overlap: usize) -> (r: Result<
    usize,
    PipelineError,
>)
    ensures
        r is Ok <==> reserved < max_total && valid_budget(max_total - reserved, overlap as int),
        r is Ok ==> r->Ok_0 == max_total - reserved,
        r is Err ==> r->Err_0 is Configuration,
{
    if reserved >= max_total {
        return Err(PipelineError::Configuration);
    }
    let available = max_total - reserved;
    if overlap >= available {
        return Err(PipelineError::Configuration);
    }
    Ok(available)
}

/// Splits the tokens into planned windows and returns the text of each.
pub fn split_windows(tokens: &Vec<String>, available: usize, overlap: usize) -> (r: Result<
    Vec<String>,
    PipelineError,
>)
    ensures
        r is Err <==> !valid_budget(available as int, overlap as int),
        r is Err ==> r->Err_0 is Configuration,
        r is Ok ==> exists|ws: Seq<Window>|
            is_plan(ws, tokens@.len() as int, available as int, overlap as int) && token_views(
                r->Ok_0@,
            ) == window_texts(token_views(tokens@), ws),
{
    let ws = match plan_windows(tokens.len(), available, overlap) {
        Ok(ws) => ws,
        Err(e) => {
            return Err(e);
        },
    };
    let ghost n = tokens@.len() as int;
    let mut out: Vec<String> = Vec::new();
    let mut k: usize = 0;
    while k < ws.len()
        invariant
            valid_budget(available as int, overlap as int),
            is_plan(ws@, n, available as int, overlap as int),
            n == tokens@.len(),
            k <= ws@.len(),
            out@.len() == k,
            forall|j: int|
                0 <= j < k ==> out@[j]@ == window_texts(token_views(tokens@), ws@)[j],
        decreases ws@.len() - k,
    {
        proof {
            crate::planner::lemma_window_bounds(ws@, n, available as int, overlap as int, k as int);
        }
        let w = ws[k];
        out.push(join_tokens(tokens, w.start, w.end));
        k = k + 1;
    }
    assert(token_views(out@) =~= window_texts(token_views(tokens@), ws@));
    Ok(out)
}

/// Sets up a run over the tokens of a diff, with `available` tokens per window.
pub fn plan_run(system_prompt: &str, tokens: &Vec<String>, available: usize, overlap: usize) -> (r:
    Result<Refinement, PipelineError>)
    ensures
        r is Err <==> !valid_budget(available as int, overlap as int),
        r is Err ==> r->Err_0 is Configuration,
        r is Ok ==> {
            let v = r->Ok_0@;
            &&& v.system_prompt == system_prompt@
            &&& v.artifacts == Seq::<Seq<char>>::empty()
            &&& exists|ws: Seq<Window>|
                is_plan(ws, tokens@.len() as int, available as int, overlap as int) && v.windows
                    == window_texts(token_views(tokens@), ws)
        },
{
    match split_windows(tokens, available, overlap) {
        Ok(windows) => Ok(Refinement::new(system_prompt.to_owned(), windows)),
        Err(e) => Err(e),
    }
}

/// Tokenizes the instructions and the diff and sets up a run whose requests stay
/// within `max_total` tokens, the instructions' tokens included. A budget that leaves no
/// step fails before the diff is tokenized, and before any request exists.
pub fn prepare(
    tokenizer: &Tokenizer,
    system_prompt: &str,
    diff: &str,
    max_total: usize,
    overlap: usize,
) -> (r: Result<Refinement, PipelineError>)
    ensures
        ({
            let reserved = cl100k_pieces(system_prompt@).len() as int;
            let toks = cl100k_pieces(diff@);
            let budget_ok = reserved < max_total && valid_budget(
                max_total - reserved,
                overlap as int,
            );
            &&& r is Ok <==> tokenizes(system_prompt@) && budget_ok && tokenizes(diff@)
            &&& !tokenizes(system_prompt@) ==> r is Err && r->Err_0 is Tokenization
            &&& tokenizes(system_prompt@) && !budget_ok ==> r is Err && r->Err_0 is Configuration
            &&& tokenizes(system_prompt@) && budget_ok && !tokenizes(diff@) ==> r is Err
                && r->Err_0 is Tokenization
            &&& r is Ok ==> {
                let v = r->Ok_0@;
                &&& v.system_prompt == system_prompt@
                &&& v.artifacts == Seq::<Seq<char>>::empty()
                &&& exists|ws: Seq<Window>|
                    #[trigger] is_plan(ws, toks.len() as int, max_total - reserved, overlap as int)
                        && v.windows == window_texts(toks, ws)
            }
        }),
{
    let prompt_tokens = match tokenizer.tokenize(system_prompt) {
        Ok(t) => t,
        Err(e) => {
            return Err(e);
        },
    };
    assert(prompt_tokens@.len() == token_views(prompt_tokens@).len());
    let available = match check_budget(max_total, prompt_tokens.len(), overlap) {
        Ok(a) => a,
        Err(e) => {
            return Err(e);
        },
    };
    let tokens = match tokenizer.tokenize(diff) {
        Ok(t) => t,
        Err(e) => {
            return Err(e);
        },
    };
    let ghost toks = token_views(tokens@);
    assert(toks.len() == tokens@.len());
    plan_run(system_prompt, &tokens, available, overlap)
}

} // verus!
