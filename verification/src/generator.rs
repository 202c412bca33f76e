use vstd::prelude::*;

use crate::fragment::Token;
use crate::fragment::frags_view;
use crate::fragment::generated_fragments;
use crate::fragment::lemma_generated_fragments_wf;
use crate::fragment::lemma_gen_no_match;
use crate::fragment::search_fragments;
use crate::fragment::token_matches;
use crate::fragment::tokens_sorted;
use crate::fragment::tokens_within;
use crate::select::best_index;
use crate::select::rebased;
use crate::select::select_best_fragment_combination;
use crate::snippet::Snippet;
use crate::terms::TermWeightTable;
use vstd::string::StringExecFns;

verus! {

/// The length bound a new generator starts with.
pub const DEFAULT_MAX_NUM_CHARS: usize = 150;

/// What a snippet call returns for a token stream: the text of the
/// best generated candidate, or nothing when no candidate was
/// generated.
pub open spec fn snippet_text_spec(
    text: Seq<char>,
    tokens: Seq<Token>,
    terms: Map<Seq<char>, u64>,
    max: int,
) -> Seq<char> {
    let fs = generated_fragments(tokens, terms, max);
    if fs.len() == 0 {
        Seq::empty()
    } else {
        let best = fs[best_index(fs)];
        text.subrange(best.start as int, best.stop as int)
    }
}

/// The highlight sections a snippet call returns, local to the
/// returned text.
pub open spec fn snippet_hl_spec(
    tokens: Seq<Token>,
    terms: Map<Seq<char>, u64>,
    max: int,
) -> Seq<crate::highlight::HighlightSection> {
    let fs = generated_fragments(tokens, terms, max);
    if fs.len() == 0 {
        Seq::empty()
    } else {
        let best = fs[best_index(fs)];
        rebased(best.hl, best.start)
    }
}

/// With an empty weight table no token is a hit, so the generator
/// emits no candidate for any token stream.
pub proof fn lemma_empty_table_no_fragments(tokens: Seq<Token>, max: int)
    ensures
        generated_fragments(tokens, Map::<Seq<char>, u64>::empty(), max)
            == Seq::<crate::fragment::FragModel>::empty(),
{
    let terms = Map::<Seq<char>, u64>::empty();
    assert(forall|i: int| 0 <= i < tokens.len() ==> !token_matches(#[trigger] tokens[i], terms));
    lemma_gen_no_match(tokens, terms, max, tokens.len() as int);
}

/// If no token's lowercased text is a key of the weight table, a
/// snippet call returns the empty snippet: empty text, no highlights.
pub proof fn lemma_no_match_empty_snippet(
    text: Seq<char>,
    tokens: Seq<Token>,
    terms: Map<Seq<char>, u64>,
    max: int,
)
    requires
        forall|i: int| 0 <= i < tokens.len() ==> !token_matches(#[trigger] tokens[i], terms),
    ensures
        snippet_text_spec(text, tokens, terms, max) == Seq::<char>::empty(),
        snippet_hl_spec(tokens, terms, max) == Seq::<crate::highlight::HighlightSection>::empty(),
{
    crate::fragment::lemma_no_match_no_fragments(tokens, terms, max);
}

/// With an empty weight table a snippet call returns the empty snippet
/// for every text and token stream.
pub proof fn lemma_empty_table_empty_snippet(text: Seq<char>, tokens: Seq<Token>, max: int)
    ensures
        snippet_text_spec(text, tokens, Map::<Seq<char>, u64>::empty(), max)
            == Seq::<char>::empty(),
        snippet_hl_spec(tokens, Map::<Seq<char>, u64>::empty(), max)
            == Seq::<crate::highlight::HighlightSection>::empty(),
{
    lemma_empty_table_no_fragments(tokens, max);
}

/// Joins a document field's textual values with single spaces: the
/// first `n` values, separated.
pub open spec fn joined(vals: Seq<Seq<char>>, n: int) -> Seq<char>
    decreases n,
{
    if n <= 0 {
        Seq::empty()
    } else if n == 1 {
        vals[0]
    } else {
        joined(vals, n - 1) + seq![' '] + vals[n - 1]
    }
}

/// The characters of each string in a list.
pub open spec fn strs_view(vals: Seq<String>) -> Seq<Seq<char>> {
    vals.map_values(|s: String| s@)
}

/// Joins the textual values of a document field with a single space
/// separator, in order.
pub fn join_field_values(values: &Vec<String>) -> (r: String)
    ensures
        r@ == joined(strs_view(values@), values@.len() as int),
{
    let mut r = String::new();
    let mut i: usize = 0;
    while i < values.len()
        invariant
            i <= values@.len(),
            r@ == joined(strs_view(values@), i as int),
        decreases values@.len() - i,
    {
        if i > 0 {
            r.append(" ");
        }
        r.append(values[i].as_str());
        proof {
            reveal_strlit(" ");
            assert(" "@ =~= seq![' ']);
            assert(strs_view(values@)[i as int] == values@[i as int]@);
            assert(r@ =~= joined(strs_view(values@), i as int + 1));
        }
        i = i + 1;
    }
    r
}

/// Generates highlighted snippets for one configured field and query:
/// it holds the term weights derived for that query and the length
/// bound for the excerpts it produces.
pub struct SnippetGenerator {
    terms_text: TermWeightTable,
    max_num_chars: usize,
}

impl SnippetGenerator {
    /// The weight table the generator applies.
    pub closed spec fn terms_view(&self) -> Map<Seq<char>, u64> {
        self.terms_text@
    }

    /// The length bound the generator applies.
    pub closed spec fn max_view(&self) -> usize {
        self.max_num_chars
    }

    /// Creates a new snippet generator around an already derived
    /// term-weight table, with the default length bound.
    pub fn create(terms_text: TermWeightTable) -> (r: SnippetGenerator)
        ensures
            r.terms_view() == terms_text@,
            r.max_view() == DEFAULT_MAX_NUM_CHARS,
    {
        SnippetGenerator { terms_text, max_num_chars: DEFAULT_MAX_NUM_CHARS }
    }

    /// Sets a maximum number of characters for subsequent snippets.
    pub fn set_max_num_chars(&mut self, max_num_chars: usize)
        ensures
            final(self).terms_view() == old(self).terms_view(),
            final(self).max_view() == max_num_chars,
    {
        self.max_num_chars = max_num_chars;
    }

    /// The term-weight table the generator was built with.
    pub fn terms_text(&self) -> (r: &TermWeightTable)
        ensures
            r@ == self.terms_view(),
    {
        &self.terms_text
    }

    /// Generates a snippet for the given text and its token stream:
    /// candidate fragments are generated under the stored weights and
    /// length bound, and the best one is selected.
    pub fn snippet(&self, text: &str, tokens: &Vec<Token>) -> (r: Snippet)
        requires
            tokens_sorted(tokens@),
            tokens_within(tokens@, text@.len()),
        ensures
            r.wf(),
            r.text_view() == snippet_text_spec(
                text@,
                tokens@,
                self.terms_view(),
                self.max_view() as int,
            ),
            r.hl_view() == snippet_hl_spec(tokens@, self.terms_view(), self.max_view() as int),
    {
        let fragment_candidates = search_fragments(tokens, &self.terms_text, self.max_num_chars);
        proof {
            lemma_generated_fragments_wf(
                tokens@,
                self.terms_view(),
                self.max_view() as int,
                text@.len(),
            );
            assert(forall|j: int|
                0 <= j < fragment_candidates@.len() ==> (#[trigger] fragment_candidates@[j])@
                    == frags_view(fragment_candidates@)[j]);
        }
        select_best_fragment_combination(&fragment_candidates, text)
    }
}

} // verus!
