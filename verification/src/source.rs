//! One named log source: its ordered entry store and its category index.

use vstd::prelude::*;
use crate::entry::{Entry, EntryModel};
use crate::matcher::str_eq;
use crate::parse::{parse_line, parse_line_model};

verus! {

/// The distinct categories among the given entries, as a set of texts.
pub open spec fn entry_category_set(entries: Seq<Entry>) -> Set<Seq<char>> {
    Set::new(|c: Seq<char>| exists|k: int| 0 <= k < entries.len() && entries[k].category@ == c)
}

/// The texts listed in a category index, as a set.
pub open spec fn listed_category_set(categories: Seq<String>) -> Set<Seq<char>> {
    Set::new(|c: Seq<char>| exists|k: int| 0 <= k < categories.len() && categories[k]@ == c)
}

/// A named origin of log lines, owning the ordered entry store and the
/// category index built for it at ingestion time. Append-only: entries are
/// never removed or changed once ingested.
pub struct LogSource {
    /// Name of the origin, e.g. the path the lines were read from.
    pub name: String,
    /// Parsed entries, in ingestion order.
    pub entries: Vec<Entry>,
    /// The distinct categories of `entries`, each listed once.
    pub categories: Vec<String>,
    /// How many ingested lines were dropped as malformed. Dropping is
    /// deliberate tolerance, but the count lets a consumer notice a high
    /// drop rate without changing the pass/fail policy.
    pub dropped: usize,
}

impl LogSource {
    /// Well-formedness: line numbers are positive and strictly increase with
    /// ingestion order, the category index lists no text twice, and its
    /// membership mirrors exactly the categories of the stored entries.
    pub open spec fn wf(self) -> bool {
        &&& forall|k: int| 0 <= k < self.entries@.len() ==> (#[trigger] self.entries@[k]).line_number >= 1
        &&& forall|a: int, b: int|
            0 <= a < b < self.entries@.len()
                ==> (#[trigger] self.entries@[a]).line_number < (#[trigger] self.entries@[b]).line_number
        &&& forall|a: int, b: int|
            0 <= a < b < self.categories@.len()
                ==> (#[trigger] self.categories@[a])@ != (#[trigger] self.categories@[b])@
        &&& listed_category_set(self.categories@) == entry_category_set(self.entries@)
    }

    /// A fresh, empty source with the given name.
    pub fn new(name: String) -> (r: LogSource)
        ensures
            r.wf(),
            r.name == name,
            r.entries@.len() == 0,
            r.categories@.len() == 0,
            r.dropped == 0,
    {
        let r = LogSource { name, entries: Vec::new(), categories: Vec::new(), dropped: 0 };
        proof {
            assert(listed_category_set(r.categories@) =~= entry_category_set(r.entries@));
        }
        r
    }

    /// Ingests one raw line under the given 1-based line number.
    ///
    /// A structurally valid line appends exactly one entry and folds its
    /// category into the index (idempotently); any other line only raises
    /// the drop count, by design without an error. The entry store and the
    /// category index only ever grow at their ends.
    pub fn ingest(&mut self, raw_line: &str, line_number: usize) -> (added: bool)
        requires
            old(self).wf(),
            line_number >= 1,
            old(self).dropped < usize::MAX,
            forall|k: int|
                0 <= k < old(self).entries@.len()
                    ==> (#[trigger] old(self).entries@[k]).line_number < line_number,
        ensures
            final(self).wf(),
            final(self).name == old(self).name,
            old(self).categories@.is_prefix_of(final(self).categories@),
            match parse_line_model(raw_line@, line_number as int) {
                Some(m) => {
                    &&& added
                    &&& final(self).entries@ == old(self).entries@.push(final(self).entries@.last())
                    &&& final(self).entries@.last()@ == m
                    &&& final(self).dropped == old(self).dropped
                },
                None => {
                    &&& !added
                    &&& final(self).entries == old(self).entries
                    &&& final(self).categories == old(self).categories
                    &&& final(self).dropped == old(self).dropped + 1
                },
            },
    {
        match parse_line(raw_line, line_number) {
            Some(e) => {
                let ghost olds = *self;
                let ghost esnap = e;
                let category = e.category.clone();
                if !contains_text(&self.categories, category.as_str()) {
                    self.categories.push(category);
                }
                self.entries.push(e);
                proof {
                    assert(self.entries@ =~= olds.entries@.push(esnap));
                    assert(self.entries@.last() == esnap);
                    lemma_ingest_preserves_wf(olds, *self, esnap);
                }
                true
            },
            None => {
                self.dropped = self.dropped + 1;
                false
            },
        }
    }

    /// Builds a source by ingesting every given line in order, numbering
    /// them from 1. The entries held afterwards are exactly the models that
    /// `ingest_models` assigns to the lines.
    pub fn from_lines(name: String, lines: &Vec<String>) -> (r: LogSource)
        ensures
            r.wf(),
            r.name == name,
            r.entries@.map_values(|e: Entry| e@) == ingest_models(lines.deep_view()),
            r.entries@.len() + r.dropped == lines@.len(),
    {
        let ghost lv = lines.deep_view();
        let mut source = LogSource::new(name);
        proof {
            assert(lv.subrange(0, 0) =~= Seq::<Seq<char>>::empty());
            assert(source.entries@.map_values(|e: Entry| e@) =~= Seq::<EntryModel>::empty());
        }
        let n = lines.len();
        let mut idx: usize = 0;
        while idx < n
            invariant
                n == lines@.len(),
                idx <= n,
                lv == lines.deep_view(),
                source.wf(),
                source.name == name,
                source.entries@.len() + source.dropped == idx,
                forall|k: int|
                    0 <= k < source.entries@.len()
                        ==> (#[trigger] source.entries@[k]).line_number <= idx,
                source.entries@.map_values(|e: Entry| e@) == ingest_models(
                    lv.subrange(0, idx as int),
                ),
            decreases n - idx,
        {
            let ghost before = source.entries@.map_values(|e: Entry| e@);
            let added = source.ingest(lines[idx].as_str(), idx + 1);
            proof {
                let sub = lv.subrange(0, idx + 1);
                assert(sub.drop_last() =~= lv.subrange(0, idx as int));
                assert(sub.last() == lines@[idx as int]@);
                let after = source.entries@.map_values(|e: Entry| e@);
                match parse_line_model(lines@[idx as int]@, idx + 1) {
                    Some(m) => {
                        assert(after =~= before.push(m));
                    },
                    None => {
                        assert(after == before);
                    },
                }
                assert(after == ingest_models(sub));
            }
            idx = idx + 1;
        }
        proof {
            assert(lv.subrange(0, n as int) =~= lv);
        }
        source
    }
}

/// The entry models that ingesting the given lines in order produces, with
/// line numbers assigned from 1: each structurally valid line contributes
/// one record, every other line is dropped.
pub open spec fn ingest_models(lines: Seq<Seq<char>>) -> Seq<EntryModel>
    decreases lines.len(),
{
    if lines.len() == 0 {
        Seq::empty()
    } else {
        let prefix = ingest_models(lines.drop_last());
        match parse_line_model(lines.last(), lines.len() as int) {
            Some(m) => prefix.push(m),
            None => prefix,
        }
    }
}

/// Whether the index already lists this text.
fn contains_text(categories: &Vec<String>, c: &str) -> (r: bool)
    ensures
        r == listed_category_set(categories@).contains(c@),
{
    let n = categories.len();
    let mut k: usize = 0;
    while k < n
        invariant
            k <= n == categories@.len(),
            forall|t: int| 0 <= t < k ==> (#[trigger] categories@[t])@ != c@,
        decreases n - k,
    {
        if str_eq(categories[k].as_str(), c) {
            return true;
        }
        k = k + 1;
    }
    false
}

/// Appending one entry, and its category where it was missing, keeps a
/// source well-formed: the index still mirrors the stored categories.
proof fn lemma_ingest_preserves_wf(olds: LogSource, news: LogSource, e: Entry)
    requires
        olds.wf(),
        e.line_number >= 1,
        forall|k: int|
            0 <= k < olds.entries@.len()
                ==> (#[trigger] olds.entries@[k]).line_number < e.line_number,
        news.entries@ == olds.entries@.push(e),
        news.categories@ == if listed_category_set(olds.categories@).contains(e.category@) {
            olds.categories@
        } else {
            olds.categories@.push(e.category)
        },
    ensures
        news.wf(),
{
    let oldcs = olds.categories@;
    let newcs = news.categories@;
    let oldes = olds.entries@;
    let newes = news.entries@;
    let had = listed_category_set(oldcs).contains(e.category@);
    assert forall|a: int, b: int| 0 <= a < b < newcs.len() implies (#[trigger] newcs[a])@ != (
    #[trigger] newcs[b])@ by {
        if b < oldcs.len() {
        } else if !had {
            assert(newcs[b] == e.category);
            assert(oldcs[a]@ != e.category@);
        }
    }
    assert(listed_category_set(newcs) =~= entry_category_set(newes)) by {
        assert forall|c: Seq<char>| listed_category_set(newcs).contains(c) implies entry_category_set(
            newes,
        ).contains(c) by {
            let k = choose|k: int| 0 <= k < newcs.len() && newcs[k]@ == c;
            if k < oldcs.len() {
                assert(listed_category_set(oldcs).contains(c));
                assert(entry_category_set(oldes).contains(c));
                let t = choose|t: int| 0 <= t < oldes.len() && oldes[t].category@ == c;
                assert(newes[t].category@ == c);
            } else {
                assert(newcs[k] == e.category);
                assert(newes[oldes.len() as int].category@ == c);
            }
        }
        assert forall|c: Seq<char>| entry_category_set(newes).contains(c) implies listed_category_set(
            newcs,
        ).contains(c) by {
            let k = choose|k: int| 0 <= k < newes.len() && newes[k].category@ == c;
            if k < oldes.len() {
                assert(entry_category_set(oldes).contains(c));
                assert(listed_category_set(oldcs).contains(c));
                let t = choose|t: int| 0 <= t < oldcs.len() && oldcs[t]@ == c;
                assert(newcs[t]@ == c);
            } else {
                assert(c == e.category@);
                if had {
                    let t = choose|t: int| 0 <= t < oldcs.len() && oldcs[t]@ == c;
                    assert(newcs[t]@ == c);
                } else {
                    assert(newcs[oldcs.len() as int]@ == c);
                }
            }
        }
    }
}

} // verus!
