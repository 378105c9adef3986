use vstd::prelude::*;
use vstd::std_specs::iter::IteratorSpec;

use crate::error::PipelineError;
use tiktoken_rs::CoreBPE;

verus! {

broadcast use vstd::string::axiom_spec_iter, vstd::string::next_postcondition;

#[verifier::external_type_specification]
#[verifier::external_body]
pub struct ExCoreBPE(CoreBPE);

/// Relies on `tiktoken_rs::cl100k_base`: builds the cl100k encoder from the table the
/// crate bundles, or fails if that table cannot be read.
#[verifier::external_body]
fn load_cl100k() -> (r: Option<CoreBPE>) {
    tiktoken_rs::cl100k_base().ok()
}

/// The tokens that the cl100k encoding gives for a text, each decoded to its text.
pub uninterp spec fn cl100k_pieces(text: Seq<char>) -> Seq<Seq<char>>;

/// Relies on `CoreBPE::split_by_token` (special tokens allowed): the tokens of `text`, in
/// order, each decoded to a string; the result depends on the text alone, since a
/// `Tokenizer` only ever holds the cl100k encoder. In this version every token is decoded
/// lossily, so the call never returns its error. The encoder unwraps each match of its
/// pattern, which fancy-regex runs on a backtracking engine that fails past a million
/// stack entries or backtracks in one match; a greedy repetition there takes one entry
/// per character, and each repetition of the pattern stays inside one run of white space
/// or of other characters. Runs shorter than `MAX_RUN` keep every match far below those
/// limits.
#[verifier::external_body]
fn split_pieces(tokenizer: &Tokenizer, text: &str) -> (r: Vec<String>)
    requires
        runs_bounded(text@),
    ensures
        token_views(r@) == cl100k_pieces(text@),
{
    tokenizer.bpe.split_by_token(text, true).unwrap_or_default()
}

pub open spec fn token_views(tokens: Seq<String>) -> Seq<Seq<char>> {
    tokens.map_values(|t: String| t@)
}

/// Every run of white space, or of other characters, that the tokenizer is handed is
/// shorter than this.
pub const MAX_RUN: usize = 10000;

/// The characters that the tokenizer's pattern reads as white space (Unicode White_Space).
pub open spec fn is_white_space(c: char) -> bool {
    ('\u{9}' <= c && c <= '\u{d}') || c == ' ' || c == '\u{85}' || c == '\u{a0}' || c
        == '\u{1680}' || ('\u{2000}' <= c && c <= '\u{200a}') || c == '\u{2028}' || c
        == '\u{2029}' || c == '\u{202f}' || c == '\u{205f}' || c == '\u{3000}'
}

fn white_space(c: char) -> (r: bool)
    ensures
        r == is_white_space(c),
{
    ('\u{9}' <= c && c <= '\u{d}') || c == ' ' || c == '\u{85}' || c == '\u{a0}' || c
        == '\u{1680}' || ('\u{2000}' <= c && c <= '\u{200a}') || c == '\u{2028}' || c
        == '\u{2029}' || c == '\u{202f}' || c == '\u{205f}' || c == '\u{3000}'
}

/// How many characters at the end of `s` are all white space, or all not.
pub open spec fn trailing_run(s: Seq<char>) -> nat
    decreases s.len(),
{
    if s.len() == 0 {
        0
    } else if s.len() >= 2 && is_white_space(s[s.len() - 1]) == is_white_space(s[s.len() - 2]) {
        trailing_run(s.drop_last()) + 1
    } else {
        1
    }
}

/// No `MAX_RUN` consecutive characters of `s` are all white space, or all not.
pub open spec fn runs_bounded(s: Seq<char>) -> bool
    decreases s.len(),
{
    s.len() == 0 || (runs_bounded(s.drop_last()) && trailing_run(s) < MAX_RUN)
}

proof fn lemma_runs_bounded_prefix(s: Seq<char>, k: int)
    requires
        runs_bounded(s),
        0 <= k <= s.len(),
    ensures
        runs_bounded(s.subrange(0, k)),
    decreases s.len(),
{
    if k == s.len() {
        assert(s.subrange(0, k) =~= s);
    } else {
        assert(s.drop_last().subrange(0, k) =~= s.subrange(0, k));
        lemma_runs_bounded_prefix(s.drop_last(), k);
    }
}

/// The characters of `s`.
pub fn chars_of(s: &str) -> (r: Vec<char>)
    ensures
        r@ == s@,
{
    let mut it = s.chars();
    let mut out: Vec<char> = Vec::new();
    loop
        invariant
            it.obeys_prophetic_iter_laws(),
            it.decrease() is Some,
            out@ + it.remaining() == s@,
        decreases it.decrease()->0,
    {
        match it.next() {
            Some(c) => {
                out.push(c);
            },
            None => {
                assert(out@ + it.remaining() == out@);
                return out;
            },
        }
    }
}

/// The position of the character that completes the first run of `MAX_RUN` characters,
/// or `None` if there is no such run.
pub fn first_long_run(cs: &Vec<char>) -> (r: Option<usize>)
    ensures
        r is None <==> runs_bounded(cs@),
        r matches Some(o) ==> o < cs@.len() && runs_bounded(cs@.subrange(0, o as int))
            && !runs_bounded(cs@.subrange(0, o + 1)),
{
    let mut i: usize = 0;
    let mut run: usize = 0;
    while i < cs.len()
        invariant
            i <= cs@.len(),
            runs_bounded(cs@.subrange(0, i as int)),
            run == trailing_run(cs@.subrange(0, i as int)),
            run < MAX_RUN,
        decreases cs@.len() - i,
    {
        let ghost p = cs@.subrange(0, i + 1);
        assert(p.drop_last() =~= cs@.subrange(0, i as int));
        if i > 0 && white_space(cs[i]) == white_space(cs[i - 1]) {
            run = run + 1;
        } else {
            run = 1;
        }
        assert(run == trailing_run(p));
        if run >= MAX_RUN {
            proof {
                if runs_bounded(cs@) {
                    lemma_runs_bounded_prefix(cs@, i + 1);
                }
            }
            return Some(i);
        }
        i = i + 1;
    }
    assert(cs@.subrange(0, i as int) =~= cs@);
    None
}

/// The first position at which `a` and `b` differ, or `None` if they are equal.
pub fn first_difference(a: &Vec<char>, b: &Vec<char>) -> (r: Option<usize>)
    ensures
        r is None <==> a@ == b@,
        r matches Some(o) ==> {
            &&& o <= a@.len() && o <= b@.len()
            &&& a@.subrange(0, o as int) == b@.subrange(0, o as int)
            &&& o == a@.len() || o == b@.len() || a@[o as int] != b@[o as int]
        },
{
    let mut i: usize = 0;
    while i < a.len() && i < b.len()
        invariant
            i <= a@.len() && i <= b@.len(),
            a@.subrange(0, i as int) == b@.subrange(0, i as int),
        decreases a@.len() - i,
    {
        if a[i] != b[i] {
            return Some(i);
        }
        assert(a@.subrange(0, i + 1) =~= a@.subrange(0, i as int).push(a@[i as int]));
        assert(b@.subrange(0, i + 1) =~= b@.subrange(0, i as int).push(b@[i as int]));
        i = i + 1;
    }
    if a.len() == b.len() {
        assert(a@ =~= a@.subrange(0, i as int));
        assert(b@ =~= b@.subrange(0, i as int));
        None
    } else {
        proof {
            if a@ == b@ {
                assert(false);
            }
        }
        Some(i)
    }
}

/// The text of a run of tokens: the tokens written one after another.
pub open spec fn joined(ts: Seq<Seq<char>>) -> Seq<char>
    decreases ts.len(),
{
    if ts.len() == 0 {
        Seq::empty()
    } else {
        joined(ts.drop_last()) + ts.last()
    }
}

/// The text of tokens `start..end`.
pub fn join_tokens(tokens: &Vec<String>, start: usize, end: usize) -> (r: String)
    requires
        start <= end <= tokens@.len(),
    ensures
        r@ == joined(token_views(tokens@).subrange(start as int, end as int)),
{
    let mut s = String::new();
    let mut i: usize = start;
    while i < end
        invariant
            start <= i <= end <= tokens@.len(),
            s@ == joined(token_views(tokens@).subrange(start as int, i as int)),
        decreases end - i,
    {
        s.append(tokens[i].as_str());
        assert(token_views(tokens@).subrange(start as int, i + 1).drop_last() =~= token_views(
            tokens@,
        ).subrange(start as int, i as int));
        i = i + 1;
    }
    s
}

/// The cl100k tokenizer.
pub struct Tokenizer {
    bpe: CoreBPE,
}

impl Tokenizer {
    /// Loads the cl100k encoding; `None` if its bundled table cannot be read.
    pub fn cl100k() -> (r: Option<Tokenizer>) {
        match load_cl100k() {
            Some(bpe) => Some(Tokenizer { bpe }),
            None => None,
        }
    }

    /// Splits `text` into tokens. Fails at the character that completes a run longer
    /// than the tokenizer takes, or, when the tokens do not give back the text exactly,
    /// at the first character where they differ from it.
    pub fn tokenize(&self, text: &str) -> (r: Result<Vec<String>, PipelineError>)
        ensures
            r is Ok <==> tokenizes(text@),
            r is Ok ==> token_views(r->Ok_0@) == cl100k_pieces(text@),
            r is Err ==> r->Err_0 is Tokenization,
            r is Err && !runs_bounded(text@) ==> {
                let o = r->Err_0->offset as int;
                o < text@.len() && runs_bounded(text@.subrange(0, o)) && !runs_bounded(
                    text@.subrange(0, o + 1),
                )
            },
            r is Err && runs_bounded(text@) ==> first_mismatch_at(
                joined(cl100k_pieces(text@)),
                text@,
                r->Err_0->offset as int,
            ),
    {
        let cs = chars_of(text);
        match first_long_run(&cs) {
            Some(offset) => Err(PipelineError::Tokenization { offset }),
            None => check_tokens(&cs, split_pieces(self, text)),
        }
    }
}

/// The tokenizer takes `text` and its tokens give it back exactly.
pub open spec fn tokenizes(text: Seq<char>) -> bool {
    runs_bounded(text) && joined(cl100k_pieces(text)) == text
}

/// `o` is the first position at which `a` and `b` differ.
pub open spec fn first_mismatch_at(a: Seq<char>, b: Seq<char>, o: int) -> bool {
    &&& a != b
    &&& 0 <= o <= a.len() && o <= b.len()
    &&& a.subrange(0, o) == b.subrange(0, o)
    &&& o == a.len() || o == b.len() || a[o] != b[o]
}

/// Keeps `pieces` as the tokens of the text whose characters are `text` when they give
/// it back exactly; otherwise fails at the first character where they differ.
pub fn check_tokens(text: &Vec<char>, pieces: Vec<String>) -> (r: Result<Vec<String>, PipelineError>)
    ensures
        r is Ok <==> joined(token_views(pieces@)) == text@,
        r is Ok ==> r->Ok_0@ == pieces@,
        r is Err ==> r->Err_0 is Tokenization && first_mismatch_at(
            joined(token_views(pieces@)),
            text@,
            r->Err_0->offset as int,
        ),
{
    let whole = join_tokens(&pieces, 0, pieces.len());
    assert(token_views(pieces@).subrange(0, pieces@.len() as int) =~= token_views(pieces@));
    let got = chars_of(whole.as_str());
    match first_difference(&got, text) {
        None => Ok(pieces),
        Some(offset) => Err(PipelineError::Tokenization { offset }),
    }
}

} // verus!
