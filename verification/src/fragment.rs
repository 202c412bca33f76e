use vstd::prelude::*;

use crate::highlight::HighlightSection;
use crate::terms::TermWeightTable;
use crate::terms::lower_of;
use crate::terms::lowercase;

verus! {

/// A lexical unit of the source text: its normalized text and the
/// character offsets `[offset_from, offset_to)` it spans in the source.
pub struct Token {
    pub text: String,
    pub offset_from: usize,
    pub offset_to: usize,
}

/// Whether a token counts as a hit: its lowercased text is a key of the
/// term-weight table.
pub open spec fn token_matches(t: Token, terms: Map<Seq<char>, u64>) -> bool {
    terms.contains_key(lower_of(t.text@))
}

/// Every weight in the table is positive.
pub open spec fn positive_weights(terms: Map<Seq<char>, u64>) -> bool {
    forall|k: Seq<char>| terms.contains_key(k) ==> terms[k] >= 1
}

/// Tokens come in source order: each spans a non-empty-or-empty forward
/// range, and no token starts before an earlier one ended.
pub open spec fn tokens_sorted(tokens: Seq<Token>) -> bool {
    &&& forall|i: int|
        0 <= i < tokens.len() ==> (#[trigger] tokens[i]).offset_from <= tokens[i].offset_to
    &&& forall|i: int, j: int|
        0 <= i < j < tokens.len() ==> (#[trigger] tokens[i]).offset_to
            <= (#[trigger] tokens[j]).offset_from
}

/// All token spans end within a text of `text_len` characters.
pub open spec fn tokens_within(tokens: Seq<Token>, text_len: nat) -> bool {
    forall|i: int| 0 <= i < tokens.len() ==> (#[trigger] tokens[i]).offset_to <= text_len
}

/// The mathematical content of a fragment candidate.
pub struct FragModel {
    pub score: u64,
    pub start: usize,
    pub stop: usize,
    pub hl: Seq<HighlightSection>,
}

/// A candidate fragment is well formed when its highlights lie inside
/// its own span, in order and non-overlapping.
pub open spec fn frag_wf(f: FragModel) -> bool {
    &&& f.start <= f.stop
    &&& forall|k: int|
        0 <= k < f.hl.len() ==> f.start <= (#[trigger] f.hl[k]).start && f.hl[k].start
            <= f.hl[k].stop && f.hl[k].stop <= f.stop
    &&& forall|k: int|
        0 <= k < f.hl.len() - 1 ==> (#[trigger] f.hl[k]).stop <= f.hl[k + 1].start
}

/// A fresh candidate: score 0, no highlights, an empty span at
/// `start`.
pub open spec fn frag_new(start: usize) -> FragModel {
    FragModel { score: 0, start, stop: start, hl: Seq::empty() }
}

/// Feeding one token to a candidate: the span is extended to the
/// token's end; a hit adds the term's weight to the score (saturating)
/// and appends the token's span as a highlight.
pub open spec fn frag_add(f: FragModel, t: Token, terms: Map<Seq<char>, u64>) -> FragModel {
    let key = lower_of(t.text@);
    if terms.contains_key(key) {
        FragModel {
            score: f.score.saturating_add(terms[key]),
            start: f.start,
            stop: t.offset_to,
            hl: f.hl.push(HighlightSection { start: t.offset_from, stop: t.offset_to }),
        }
    } else {
        FragModel { score: f.score, start: f.start, stop: t.offset_to, hl: f.hl }
    }
}

/// The generator's state: the candidate being grown and the candidates
/// already closed and kept.
pub struct GenState {
    pub cur: FragModel,
    pub out: Seq<FragModel>,
}

/// One step of the greedy windowing: if taking the token would push the
/// current candidate past `max` characters, close it (keep it only when
/// it scored) and open a new one at the token's start; then feed the
/// token to the current candidate.
pub open spec fn gen_close(st: GenState, t: Token, max: int) -> GenState {
    if t.offset_to - st.cur.start > max {
        GenState {
            cur: frag_new(t.offset_from),
            out: if st.cur.score > 0 {
                st.out.push(st.cur)
            } else {
                st.out
            },
        }
    } else {
        st
    }
}

/// A whole generator step: close the window if the token would
/// overflow it, then feed the token to the current candidate.
pub open spec fn gen_step(st: GenState, t: Token, terms: Map<Seq<char>, u64>, max: int) -> GenState {
    let st1 = gen_close(st, t, max);
    GenState { cur: frag_add(st1.cur, t, terms), out: st1.out }
}

/// The generator's state after the first `n` tokens.
pub open spec fn gen(tokens: Seq<Token>, terms: Map<Seq<char>, u64>, max: int, n: int) -> GenState
    decreases n,
{
    if n <= 0 {
        GenState { cur: frag_new(0), out: Seq::empty() }
    } else {
        gen_step(gen(tokens, terms, max, n - 1), tokens[n - 1], terms, max)
    }
}

/// All candidates the generator emits for a token stream: the closed
/// ones, plus the final candidate when it scored.
pub open spec fn generated_fragments(
    tokens: Seq<Token>,
    terms: Map<Seq<char>, u64>,
    max: int,
) -> Seq<FragModel> {
    let st = gen(tokens, terms, max, tokens.len() as int);
    if st.cur.score > 0 {
        st.out.push(st.cur)
    } else {
        st.out
    }
}

/// Structural facts about the generator's state after `n` tokens: the
/// current candidate is well formed and ends at the last token consumed,
/// and every closed candidate is well formed and ended no later.
pub proof fn lemma_gen_wf(tokens: Seq<Token>, terms: Map<Seq<char>, u64>, max: int, n: int)
    requires
        tokens_sorted(tokens),
        0 <= n <= tokens.len(),
    ensures
        frag_wf(gen(tokens, terms, max, n).cur),
        gen(tokens, terms, max, n).cur.stop == if n == 0 {
            0
        } else {
            tokens[n - 1].offset_to
        },
        forall|j: int|
            0 <= j < gen(tokens, terms, max, n).out.len() ==> frag_wf(
                #[trigger] gen(tokens, terms, max, n).out[j],
            ) && gen(tokens, terms, max, n).out[j].stop <= gen(tokens, terms, max, n).cur.stop,
    decreases n,
{
    if n > 0 {
        lemma_gen_wf(tokens, terms, max, n - 1);
        let prev = gen(tokens, terms, max, n - 1);
        let t = tokens[n - 1];
        assert(t.offset_from <= t.offset_to);
        if n - 1 > 0 {
            assert(tokens[n - 2].offset_to <= tokens[n - 1].offset_from);
        }
        assert(prev.cur.stop <= t.offset_from);
    }
}

/// If no token is a hit, the generator keeps nothing: every state has
/// score zero and an empty output.
pub proof fn lemma_gen_no_match(tokens: Seq<Token>, terms: Map<Seq<char>, u64>, max: int, n: int)
    requires
        0 <= n <= tokens.len(),
        forall|i: int| 0 <= i < tokens.len() ==> !token_matches(#[trigger] tokens[i], terms),
    ensures
        gen(tokens, terms, max, n).cur.score == 0,
        gen(tokens, terms, max, n).out == Seq::<FragModel>::empty(),
    decreases n,
{
    if n > 0 {
        lemma_gen_no_match(tokens, terms, max, n - 1);
    }
}

/// If some token among the first `n` is a hit and all weights are
/// positive, the generator is holding a scoring candidate or has
/// already closed one.
pub proof fn lemma_gen_match(tokens: Seq<Token>, terms: Map<Seq<char>, u64>, max: int, n: int)
    requires
        0 <= n <= tokens.len(),
        positive_weights(terms),
        exists|i: int| 0 <= i < n && token_matches(#[trigger] tokens[i], terms),
    ensures
        gen(tokens, terms, max, n).cur.score > 0 || gen(tokens, terms, max, n).out.len() > 0,
    decreases n,
{
    let i = choose|i: int| 0 <= i < n && token_matches(#[trigger] tokens[i], terms);
    if i < n - 1 {
        lemma_gen_match(tokens, terms, max, n - 1);
    }
}

/// No hit among the tokens: the generator emits no candidate at all.
pub proof fn lemma_no_match_no_fragments(tokens: Seq<Token>, terms: Map<Seq<char>, u64>, max: int)
    requires
        forall|i: int| 0 <= i < tokens.len() ==> !token_matches(#[trigger] tokens[i], terms),
    ensures
        generated_fragments(tokens, terms, max) == Seq::<FragModel>::empty(),
{
    lemma_gen_no_match(tokens, terms, max, tokens.len() as int);
}

/// At least one hit and positive weights: the generator emits at least
/// one candidate.
pub proof fn lemma_match_gives_fragments(tokens: Seq<Token>, terms: Map<Seq<char>, u64>, max: int)
    requires
        positive_weights(terms),
        exists|i: int| 0 <= i < tokens.len() && token_matches(#[trigger] tokens[i], terms),
    ensures
        generated_fragments(tokens, terms, max).len() > 0,
{
    lemma_gen_match(tokens, terms, max, tokens.len() as int);
}

/// Every emitted candidate is well formed, and its span ends within a
/// text that all tokens end within.
pub proof fn lemma_generated_fragments_wf(
    tokens: Seq<Token>,
    terms: Map<Seq<char>, u64>,
    max: int,
    text_len: nat,
)
    requires
        tokens_sorted(tokens),
        tokens_within(tokens, text_len),
    ensures
        forall|j: int|
            0 <= j < generated_fragments(tokens, terms, max).len() ==> frag_wf(
                #[trigger] generated_fragments(tokens, terms, max)[j],
            ) && generated_fragments(tokens, terms, max)[j].stop <= text_len,
{
    let n = tokens.len() as int;
    lemma_gen_wf(tokens, terms, max, n);
    if n > 0 {
        assert(tokens[n - 1].offset_to <= text_len);
    }
}

/// A scored excerpt candidate: the sum of the matched terms' weights,
/// the span of source text it covers, and the matched spans inside it
/// in text order.
pub struct FragmentCandidate {
    score: u64,
    start_offset: usize,
    stop_offset: usize,
    highlighted: Vec<HighlightSection>,
}

impl View for FragmentCandidate {
    type V = FragModel;

    closed spec fn view(&self) -> FragModel {
        FragModel {
            score: self.score,
            start: self.start_offset,
            stop: self.stop_offset,
            hl: self.highlighted@,
        }
    }
}

impl FragmentCandidate {
    /// A fresh candidate starting (and for now ending) at
    /// `start_offset`, with score 0 and no highlights.
    pub fn new(start_offset: usize) -> (r: FragmentCandidate)
        ensures
            r@ == frag_new(start_offset),
    {
        let r = FragmentCandidate {
            score: 0,
            start_offset,
            stop_offset: start_offset,
            highlighted: Vec::new(),
        };
        proof {
            assert(r@.hl =~= frag_new(start_offset).hl);
        }
        r
    }

    /// Feeds one token to the candidate: extends the span to the
    /// token's end, and on a hit adds the term's weight to the score
    /// (saturating) and records the token's span as a highlight.
    pub fn try_add_token(&mut self, token: &Token, terms: &TermWeightTable)
        ensures
            final(self)@ == frag_add(old(self)@, *token, terms@),
    {
        self.stop_offset = token.offset_to;
        let lowered = lowercase(token.text.as_str());
        match terms.get(&lowered) {
            Some(weight) => {
                self.score = self.score.saturating_add(weight);
                self.highlighted.push(
                    HighlightSection::new(token.offset_from, token.offset_to),
                );
            },
            None => {},
        }
    }

    /// The candidate's cumulative score.
    pub fn score(&self) -> (r: u64)
        ensures
            r == self@.score,
    {
        self.score
    }

    /// Where the candidate's span starts in the source text.
    pub fn start_offset(&self) -> (r: usize)
        ensures
            r == self@.start,
    {
        self.start_offset
    }

    /// Where the candidate's span ends in the source text.
    pub fn stop_offset(&self) -> (r: usize)
        ensures
            r == self@.stop,
    {
        self.stop_offset
    }

    /// The matched spans inside the candidate, in text order.
    pub fn highlighted(&self) -> (r: &Vec<HighlightSection>)
        ensures
            r@ == self@.hl,
    {
        &self.highlighted
    }
}

/// The models of a sequence of candidates.
pub open spec fn frags_view(s: Seq<FragmentCandidate>) -> Seq<FragModel> {
    s.map_values(|f: FragmentCandidate| f@)
}

/// Partitions a token stream into bounded candidate windows and keeps
/// those that contain at least one hit.
///
/// The result is exactly what the greedy windowing model emits; in
/// particular it is empty when no token's lowercased text is a key of
/// the table, and non-empty when one is and all weights are positive.
pub fn search_fragments(
    tokens: &Vec<Token>,
    terms: &TermWeightTable,
    max_num_chars: usize,
) -> (r: Vec<FragmentCandidate>)
    requires
        tokens_sorted(tokens@),
    ensures
        frags_view(r@) == generated_fragments(tokens@, terms@, max_num_chars as int),
        (forall|i: int| 0 <= i < tokens@.len() ==> !token_matches(#[trigger] tokens@[i], terms@))
            ==> r@.len() == 0,
        positive_weights(terms@) && (exists|i: int|
            0 <= i < tokens@.len() && token_matches(#[trigger] tokens@[i], terms@)) ==> r@.len()
            > 0,
        forall|j: int| 0 <= j < r@.len() ==> frag_wf((#[trigger] r@[j])@),
{
    let ghost gmax = max_num_chars as int;
    let mut fragment = FragmentCandidate::new(0);
    let mut fragments: Vec<FragmentCandidate> = Vec::new();
    let mut i: usize = 0;
    proof {
        assert(frags_view(fragments@) =~= gen(tokens@, terms@, gmax, 0).out);
    }
    while i < tokens.len()
        invariant
            i <= tokens@.len(),
            gmax == max_num_chars as int,
            tokens_sorted(tokens@),
            fragment@ == gen(tokens@, terms@, gmax, i as int).cur,
            frags_view(fragments@) == gen(tokens@, terms@, gmax, i as int).out,
        decreases tokens@.len() - i,
    {
        let next = &tokens[i];
        proof {
            lemma_gen_wf(tokens@, terms@, gmax, i as int);
            if i > 0 {
                assert(tokens@[i as int - 1].offset_to <= tokens@[i as int].offset_from);
            }
            assert(fragment@.start <= next.offset_to);
        }
        let ghost st_i = gen(tokens@, terms@, gmax, i as int);
        let ghost before = fragments@;
        if next.offset_to - fragment.start_offset > max_num_chars {
            if fragment.score > 0 {
                fragments.push(fragment);
                proof {
                    assert(frags_view(fragments@) =~= frags_view(before).push(st_i.cur));
                }
            }
            fragment = FragmentCandidate::new(next.offset_from);
        }
        fragment.try_add_token(next, terms);
        i = i + 1;
        proof {
            assert(gen(tokens@, terms@, gmax, i as int) == gen_step(
                st_i,
                tokens@[i as int - 1],
                terms@,
                gmax,
            ));
        }
    }
    if fragment.score > 0 {
        let ghost before = fragments@;
        fragments.push(fragment);
        proof {
            assert(frags_view(fragments@) =~= frags_view(before).push(
                gen(tokens@, terms@, gmax, tokens@.len() as int).cur,
            ));
        }
    }
    proof {
        if forall|i: int|
            0 <= i < tokens@.len() ==> !token_matches(#[trigger] tokens@[i], terms@) {
            lemma_no_match_no_fragments(tokens@, terms@, gmax);
        }
        if positive_weights(terms@) && (exists|i: int|
            0 <= i < tokens@.len() && token_matches(#[trigger] tokens@[i], terms@)) {
            lemma_match_gives_fragments(tokens@, terms@, gmax);
        }
        lemma_gen_wf(tokens@, terms@, gmax, tokens@.len() as int);
        assert forall|j: int| 0 <= j < fragments@.len() implies frag_wf(
            (#[trigger] fragments@[j])@,
        ) by {
            assert(frags_view(fragments@)[j] == fragments@[j]@);
        }
    }
    fragments
}

} // verus!
