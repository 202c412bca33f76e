use vstd::prelude::*;

use crate::fragment::FragModel;
use crate::fragment::FragmentCandidate;
use crate::fragment::frag_wf;
use crate::fragment::frags_view;
use crate::highlight::HighlightSection;
use crate::snippet::Snippet;
use crate::snippet::sections_wf;
use vstd::string::StrSliceExecFns;
use vstd::string::StringExecFns;

verus! {

/// The selection order on candidates: a higher score wins; on equal
/// scores the candidate that starts earlier wins, then the one that
/// ends earlier.
pub open spec fn strictly_better(l: FragModel, r: FragModel) -> bool {
    ||| l.score > r.score
    ||| (l.score == r.score && (l.start < r.start || (l.start == r.start && l.stop < r.stop)))
}

/// The index the selection keeps: the maximum under the selection
/// order; of candidates that compare equal, the last.
pub open spec fn best_index(fs: Seq<FragModel>) -> int
    decreases fs.len(),
{
    if fs.len() <= 1 {
        0
    } else {
        let b = best_index(fs.drop_last());
        if strictly_better(fs[b], fs[fs.len() - 1]) {
            b
        } else {
            fs.len() - 1
        }
    }
}

/// The selection is a deterministic maximum: no candidate beats the
/// selected one, so the selected one has the highest score, and among
/// the highest-scoring candidates the smallest start offset, then the
/// smallest stop offset.
pub proof fn lemma_best_index_is_max(fs: Seq<FragModel>)
    requires
        fs.len() > 0,
    ensures
        0 <= best_index(fs) < fs.len(),
        forall|j: int| 0 <= j < fs.len() ==> !strictly_better(#[trigger] fs[j], fs[best_index(fs)]),
        forall|j: int| 0 <= j < fs.len() ==> (#[trigger] fs[j]).score <= fs[best_index(fs)].score,
        forall|j: int|
            0 <= j < fs.len() && (#[trigger] fs[j]).score == fs[best_index(fs)].score
                ==> fs[best_index(fs)].start <= fs[j].start,
    decreases fs.len(),
{
    if fs.len() > 1 {
        lemma_best_index_is_max(fs.drop_last());
        assert(forall|j: int| 0 <= j < fs.len() - 1 ==> fs.drop_last()[j] == fs[j]);
    }
}

/// The highlight sections of a selected fragment, re-based to be local
/// to the fragment's own text: the fragment's start offset is
/// subtracted from every bound.
pub open spec fn rebased(hl: Seq<HighlightSection>, off: usize) -> Seq<HighlightSection> {
    hl.map_values(
        |h: HighlightSection|
            (HighlightSection { start: (h.start - off) as usize, stop: (h.stop - off) as usize }),
    )
}

/// The index of the best candidate under the selection order, found by
/// the same left-to-right scan that the selection model describes.
fn find_best_index(fragments: &Vec<FragmentCandidate>) -> (bi: usize)
    requires
        fragments@.len() > 0,
    ensures
        bi < fragments@.len(),
        bi as int == best_index(frags_view(fragments@)),
{
    let ghost fs = frags_view(fragments@);
    let mut bi: usize = 0;
    let mut k: usize = 1;
    proof {
        assert(fs.take(1).len() == 1);
        assert(bi as int == best_index(fs.take(1)));
    }
    while k < fragments.len()
        invariant
            fs == frags_view(fragments@),
            1 <= k <= fragments@.len(),
            bi < k,
            bi as int == best_index(fs.take(k as int)),
        decreases fragments@.len() - k,
    {
        proof {
            assert(fs[bi as int] == fragments@[bi as int]@);
            assert(fs[k as int] == fragments@[k as int]@);
        }
        let keep = {
            let b = &fragments[bi];
            let c = &fragments[k];
            b.score() > c.score() || (b.score() == c.score() && (b.start_offset()
                < c.start_offset() || (b.start_offset() == c.start_offset() && b.stop_offset()
                < c.stop_offset())))
        };
        proof {
            assert(keep == strictly_better(fs[bi as int], fs[k as int]));
            let taken = fs.take(k as int + 1);
            assert(taken.drop_last() =~= fs.take(k as int));
            assert(taken[taken.len() - 1] == fs[k as int]);
            assert(taken[best_index(taken.drop_last())] == fs[bi as int]);
        }
        if !keep {
            bi = k;
        }
        k = k + 1;
    }
    proof {
        assert(fs.take(fs.len() as int) =~= fs);
    }
    bi
}

/// Re-bases a candidate's highlights to be local to its own span.
fn rebase_highlights(best: &FragmentCandidate) -> (local: Vec<HighlightSection>)
    requires
        frag_wf(best@),
    ensures
        local@ == rebased(best@.hl, best@.start),
{
    let start = best.start_offset();
    let sections = best.highlighted();
    let mut local: Vec<HighlightSection> = Vec::new();
    let mut i: usize = 0;
    proof {
        assert(local@ =~= rebased(best@.hl.take(0), start));
    }
    while i < sections.len()
        invariant
            sections@ == best@.hl,
            frag_wf(best@),
            start == best@.start,
            i <= sections@.len(),
            local@ == rebased(best@.hl.take(i as int), start),
        decreases sections@.len() - i,
    {
        let item = sections[i];
        proof {
            assert(best@.hl[i as int] == item);
        }
        local.push(HighlightSection::new(item.start - start, item.stop - start));
        i = i + 1;
        proof {
            assert(local@ =~= rebased(best@.hl.take(i as int), start));
        }
    }
    proof {
        assert(best@.hl.take(sections@.len() as int) =~= best@.hl);
    }
    local
}

/// Re-basing a well-formed candidate's highlights keeps them well
/// formed for a text as long as the candidate's span.
proof fn lemma_rebased_wf(f: FragModel, len: nat)
    requires
        frag_wf(f),
        f.stop - f.start <= len,
    ensures
        sections_wf(rebased(f.hl, f.start), len),
{
    let r = rebased(f.hl, f.start);
    assert forall|k: int| 0 <= k < r.len() implies (#[trigger] r[k]).start <= r[k].stop && r[k].stop
        <= len by {
        assert(f.hl[k].start <= f.hl[k].stop);
    }
    assert forall|k: int| 0 <= k < r.len() - 1 implies (#[trigger] r[k]).stop <= r[k + 1].start by {
        assert(f.hl[k].stop <= f.hl[k + 1].start);
    }
}

/// Takes the candidate fragments and the text they index, and picks the
/// single best fragment under the selection order; its text is copied
/// out and its highlights are re-based to the copy. With no candidates
/// the snippet is empty.
pub fn select_best_fragment_combination(fragments: &Vec<FragmentCandidate>, text: &str) -> (r:
    Snippet)
    requires
        forall|j: int|
            0 <= j < fragments@.len() ==> frag_wf((#[trigger] fragments@[j])@)
                && fragments@[j]@.stop <= text@.len(),
    ensures
        r.wf(),
        fragments@.len() == 0 ==> r.text_view() == Seq::<char>::empty() && r.hl_view()
            == Seq::<HighlightSection>::empty(),
        fragments@.len() > 0 ==> {
            let best = frags_view(fragments@)[best_index(frags_view(fragments@))];
            r.text_view() == text@.subrange(best.start as int, best.stop as int) && r.hl_view()
                == rebased(best.hl, best.start)
        },
{
    let ghost fs = frags_view(fragments@);
    if fragments.len() == 0 {
        return Snippet::empty();
    }
    let bi = find_best_index(fragments);
    let best = &fragments[bi];
    proof {
        assert(best@ == fs[bi as int]);
        assert(frag_wf(best@) && best@.stop <= text@.len());
    }
    let start = best.start_offset();
    let stop = best.stop_offset();
    let fragment_text = String::from_str(text.substring_char(start, stop));
    let local = rebase_highlights(best);
    proof {
        lemma_rebased_wf(best@, (best@.stop - best@.start) as nat);
    }
    Snippet::from_parts(fragment_text, local)
}

} // verus!
