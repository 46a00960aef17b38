//! Laws of the core, proved once and for all: the wire format round-trips
//! through the parser, the category index is exact, and querying is
//! order-preserving, conjunctive and deterministic.

use vstd::prelude::*;
use crate::entry::{Entry, EntryModel};
use crate::filter::{passes, passes_category, passes_severity, passes_text, query_results, FilterConfig};
use crate::parse::{is_match_at, lemma_match_cut_unique, parse_line_model};
use crate::severity::wire_line;
use crate::source::{entry_category_set, listed_category_set, LogSource};

verus! {

/// `xs` is obtained from `ys` by deleting elements, keeping the order.
pub open spec fn is_subsequence_of<A>(xs: Seq<A>, ys: Seq<A>) -> bool
    decreases xs.len() + ys.len(),
{
    if xs.len() == 0 {
        true
    } else if ys.len() == 0 {
        false
    } else {
        ||| (xs.last() == ys.last() && is_subsequence_of(xs.drop_last(), ys.drop_last()))
        ||| is_subsequence_of(xs, ys.drop_last())
    }
}

/// Every element that filtering keeps was in the original and satisfies the
/// predicate.
proof fn lemma_filter_elems<A>(s: Seq<A>, pred: spec_fn(A) -> bool)
    ensures
        forall|x: A| #[trigger] s.filter(pred).contains(x) ==> s.contains(x) && pred(x),
    decreases s.len(),
{
    reveal(Seq::filter);
    if s.len() == 0 {
    } else {
        lemma_filter_elems(s.drop_last(), pred);
        assert forall|x: A| #[trigger] s.filter(pred).contains(x) implies s.contains(x) && pred(
            x,
        ) by {
            let g = s.drop_last().filter(pred);
            if pred(s.last()) && x == s.last() {
                assert(s[s.len() - 1] == x);
            } else {
                assert(g.contains(x));
                assert(s.drop_last().contains(x));
                let k = choose|k: int| 0 <= k < s.drop_last().len() && s.drop_last()[k] == x;
                assert(s[k] == x);
            }
        }
    }
}

/// Filtering a sequence yields one of its subsequences.
proof fn lemma_filter_is_subsequence<A>(s: Seq<A>, pred: spec_fn(A) -> bool)
    ensures
        is_subsequence_of(s.filter(pred), s),
    decreases s.len(),
{
    reveal(Seq::filter);
    if s.len() == 0 {
        assert(s.filter(pred) =~= Seq::<A>::empty());
    } else {
        lemma_filter_is_subsequence(s.drop_last(), pred);
        let f = s.filter(pred);
        if pred(s.last()) {
            assert(f == s.drop_last().filter(pred).push(s.last()));
            assert(f.last() == s.last());
            assert(f.drop_last() =~= s.drop_last().filter(pred));
        } else {
            assert(f == s.drop_last().filter(pred));
            if f.len() > 0 {
                assert(is_subsequence_of(f, s.drop_last()));
            }
        }
    }
}

/// Strictly increasing line numbers survive filtering.
proof fn lemma_filter_keeps_order(s: Seq<Entry>, pred: spec_fn(Entry) -> bool)
    requires
        forall|a: int, b: int|
            0 <= a < b < s.len() ==> (#[trigger] s[a]).line_number < (#[trigger] s[b]).line_number,
    ensures
        forall|a: int, b: int|
            0 <= a < b < s.filter(pred).len() ==> (#[trigger] s.filter(pred)[a]).line_number < (
            #[trigger] s.filter(pred)[b]).line_number,
    decreases s.len(),
{
    reveal(Seq::filter);
    if s.len() == 0 {
    } else {
        let d = s.drop_last();
        assert forall|a: int, b: int| 0 <= a < b < d.len() implies (#[trigger] d[a]).line_number < (
        #[trigger] d[b]).line_number by {
            assert(s[a] == d[a] && s[b] == d[b]);
        }
        lemma_filter_keeps_order(d, pred);
        lemma_filter_elems(d, pred);
        let f = s.filter(pred);
        let g = d.filter(pred);
        if pred(s.last()) {
            assert(f == g.push(s.last()));
            assert forall|a: int, b: int| 0 <= a < b < f.len() implies (
            #[trigger] f[a]).line_number < (#[trigger] f[b]).line_number by {
                if b < g.len() {
                    assert(f[a] == g[a] && f[b] == g[b]);
                } else {
                    assert(f[b] == s.last());
                    assert(f[a] == g[a]);
                    assert(g.contains(g[a]));
                    assert(d.contains(g[a]));
                    let k = choose|k: int| 0 <= k < d.len() && d[k] == g[a];
                    assert(s[k] == g[a]);
                    assert(s[k].line_number < s.last().line_number);
                }
            }
        }
    }
}

/// Order preservation: what a query yields is a subsequence of the entry
/// store, and its line numbers still strictly increase.
pub proof fn lemma_query_order_preserving(source: LogSource, config: FilterConfig)
    requires
        source.wf(),
    ensures
        is_subsequence_of(query_results(source.entries@, config), source.entries@),
        forall|a: int, b: int|
            0 <= a < b < query_results(source.entries@, config).len() ==> (
            #[trigger] query_results(source.entries@, config)[a]).line_number < (
            #[trigger] query_results(source.entries@, config)[b]).line_number,
{
    let pred = |e: Entry| passes(config, e@);
    lemma_filter_is_subsequence(source.entries@, pred);
    lemma_filter_keeps_order(source.entries@, pred);
}

/// Conjunctivity: an entry is yielded if and only if it is stored and
/// independently passes the severity, category and text gates.
pub proof fn lemma_query_conjunctive(source: LogSource, config: FilterConfig, e: Entry)
    ensures
        query_results(source.entries@, config).contains(e) <==> (source.entries@.contains(e)
            && passes_severity(config, e@) && passes_category(config, e@) && passes_text(
            config,
            e@,
        )),
{
    let pred = |e2: Entry| passes(config, e2@);
    lemma_filter_elems(source.entries@, pred);
    if source.entries@.contains(e) && pred(e) {
        let k = choose|k: int| 0 <= k < source.entries@.len() && source.entries@[k] == e;
        source.entries@.lemma_filter_contains(pred, k);
    }
}

/// Idempotence: the same configuration against an unmodified source always
/// yields identical results; nothing about a query depends on anything but
/// the store and the configuration.
pub proof fn lemma_query_idempotent(source: LogSource, config: FilterConfig, r1: Seq<Entry>, r2: Seq<Entry>)
    requires
        r1 == query_results(source.entries@, config),
        r2 == query_results(source.entries@, config),
    ensures
        r1 == r2,
{
}

/// Exactness of the category index: a well-formed source lists exactly the
/// distinct categories of the entries it stores.
pub proof fn lemma_category_index_exact(source: LogSource)
    requires
        source.wf(),
    ensures
        listed_category_set(source.categories@) == entry_category_set(source.entries@),
{
}

/// A raw line that nowhere contains the delimiter sequence `]: ` yields no
/// entry; by `ingest`'s contract such a line leaves the entry store and the
/// category index unchanged.
pub proof fn lemma_no_delimiter_no_entry(s: Seq<char>, line_number: int)
    requires
        forall|k: int|
            0 <= k && k + 2 < s.len() ==> !(#[trigger] s[k] == ']' && s[k + 1] == ':' && s[k + 2]
                == ' '),
    ensures
        parse_line_model(s, line_number) is None,
{
    if exists|i: int, j: int| is_match_at(s, i, j) {
        let (i, j) = choose|i: int, j: int| is_match_at(s, i, j);
        assert(s[j] == ']' && s[j + 1] == ':' && s[j + 2] == ' ');
    }
}

/// Round trip of the wire format: a line written exactly as
/// `[severity][category]: message` parses back to those three fields,
/// provided neither bracketed field contains a closing bracket.
pub proof fn lemma_wire_line_parses(
    severity: Seq<char>,
    category: Seq<char>,
    message: Seq<char>,
    line_number: int,
)
    requires
        forall|k: int| 0 <= k < severity.len() ==> severity[k] != ']',
        forall|k: int| 0 <= k < category.len() ==> category[k] != ']',
    ensures
        parse_line_model(wire_line(severity, category, message), line_number) == Some(
            EntryModel { line_number, severity, category, message },
        ),
{
    let s = wire_line(severity, category, message);
    let i = 1 + severity.len() as int;
    let j = i + 2 + category.len() as int;
    assert(s.len() == severity.len() + category.len() + message.len() + 6);
    assert(s[0] == '[');
    assert(s[i] == ']');
    assert(s[i + 1] == '[');
    assert(s[j] == ']');
    assert(s[j + 1] == ':');
    assert(s[j + 2] == ' ');
    assert forall|k: int| 1 <= k < i implies s[k] != ']' by {
        assert(s[k] == severity[k - 1]);
    }
    assert forall|k: int| i + 2 <= k < j implies s[k] != ']' by {
        assert(s[k] == category[k - i - 2]);
    }
    assert(is_match_at(s, i, j));
    let (ci, cj) = choose|ci: int, cj: int| is_match_at(s, ci, cj);
    lemma_match_cut_unique(s, ci, cj, i, j);
    assert(s.subrange(1, i) =~= severity);
    assert(s.subrange(i + 2, j) =~= category);
    assert(s.subrange(j + 3, s.len() as int) =~= message);
}

} // verus!
