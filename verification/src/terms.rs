use vstd::prelude::*;

verus! {

/// A name for what `str::to_lowercase` returns: Unicode lowercasing is a
/// function of the input characters alone.
pub uninterp spec fn lower_of(s: Seq<char>) -> Seq<char>;

/// Relies on `str::to_lowercase`: the result depends on the characters
/// of the input alone.
#[verifier::external_body]
pub(crate) fn lowercase(s: &str) -> (r: String)
    ensures
        r@ == lower_of(s@),
{
    s.to_lowercase()
}

/// One row of a [`TermWeightTable`]: a term's text and its relevance
/// weight.
pub struct TermWeight {
    pub term: String,
    pub weight: u64,
}

/// The weight that a sequence of table rows assigns to each term text;
/// a later row for the same term overrides an earlier one.
pub open spec fn map_of(entries: Seq<TermWeight>) -> Map<Seq<char>, u64>
    decreases entries.len(),
{
    if entries.len() == 0 {
        Map::empty()
    } else {
        map_of(entries.drop_last()).insert(entries.last().term@, entries.last().weight)
    }
}

/// A mapping from term text to a relevance weight, built once per
/// generator and immutable afterwards. Viewed as a `Map` from the term's
/// characters to its weight.
pub struct TermWeightTable {
    entries: Vec<TermWeight>,
}

impl View for TermWeightTable {
    type V = Map<Seq<char>, u64>;

    closed spec fn view(&self) -> Map<Seq<char>, u64> {
        map_of(self.entries@)
    }
}

/// Entries at positions `i` and above do not bind `k`, so the table's
/// map agrees at `k` with the map of the first `i` entries.
proof fn lemma_map_of_skip(entries: Seq<TermWeight>, i: int, k: Seq<char>)
    requires
        0 <= i <= entries.len(),
        forall|j: int| i <= j < entries.len() ==> entries[j].term@ != k,
    ensures
        map_of(entries).contains_key(k) == map_of(entries.take(i)).contains_key(k),
        map_of(entries).contains_key(k) ==> map_of(entries)[k] == map_of(entries.take(i))[k],
    decreases entries.len() - i,
{
    if i == entries.len() {
        assert(entries.take(i) =~= entries);
    } else {
        let shorter = entries.drop_last();
        assert(entries.last().term@ != k);
        lemma_map_of_skip(shorter, i, k);
        assert(shorter.take(i) =~= entries.take(i));
    }
}

impl TermWeightTable {
    /// An empty table: no term has a weight.
    pub fn new() -> (r: TermWeightTable)
        ensures
            r@ == Map::<Seq<char>, u64>::empty(),
    {
        TermWeightTable { entries: Vec::new() }
    }

    /// Gives `term` the weight `weight`, replacing any weight it had.
    pub fn insert(&mut self, term: String, weight: u64)
        ensures
            final(self)@ == old(self)@.insert(term@, weight),
    {
        let ghost before = self.entries@;
        self.entries.push(TermWeight { term, weight });
        proof {
            assert(self.entries@.drop_last() =~= before);
        }
    }

    /// The weight of `term`, if the table has one for it.
    pub fn get(&self, term: &String) -> (r: Option<u64>)
        ensures
            r == if self@.contains_key(term@) {
                Some(self@[term@])
            } else {
                None::<u64>
            },
    {
        let mut i = self.entries.len();
        while i > 0
            invariant
                i <= self.entries@.len(),
                forall|j: int| i <= j < self.entries@.len() ==> self.entries@[j].term@ != term@,
            decreases i,
        {
            i = i - 1;
            if self.entries[i].term == *term {
                proof {
                    let taken = self.entries@.take(i + 1);
                    lemma_map_of_skip(self.entries@, i + 1, term@);
                    assert(taken.drop_last() =~= self.entries@.take(i as int));
                    assert(taken.last() == self.entries@[i as int]);
                }
                return Some(self.entries[i].weight);
            }
        }
        proof {
            lemma_map_of_skip(self.entries@, 0, term@);
            assert(self.entries@.take(0) =~= Seq::<TermWeight>::empty());
        }
        None
    }
}

} // verus!
