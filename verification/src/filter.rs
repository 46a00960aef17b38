//! The filter engine: a conjunctive predicate (severity mask, category
//! choice, fuzzy text search) evaluated over an entry store in order.

use vstd::prelude::*;
use crate::entry::{Entry, EntryModel};
use crate::matcher::{fuzzy_match, fuzzy_matches, str_eq};
use crate::severity::Severity;
use crate::source::LogSource;

verus! {

/// A transient, consumer-supplied filter: which of the three known
/// severities to include, one specific category or all of them, and a fuzzy
/// search text for the message body (empty means no text filtering).
pub struct FilterConfig {
    /// Include entries whose severity text is exactly `Log`.
    pub show_log: bool,
    /// Include entries whose severity text is exactly `Warning`.
    pub show_warning: bool,
    /// Include entries whose severity text is exactly `Error`.
    pub show_error: bool,
    /// `None` passes every category; `Some(c)` only entries whose category
    /// equals `c` exactly.
    pub category_choice: Option<String>,
    /// Fuzzy-matched against the message; the empty text passes everything.
    pub search_text: String,
}

/// Severity gate: the entry's severity text equals one of the enabled tags
/// of the closed set. A text matching none of the three known tags passes no
/// gate, so such an entry is never yielded.
pub open spec fn passes_severity(config: FilterConfig, e: EntryModel) -> bool {
    ||| (config.show_log && e.severity == Severity::Log.spec_text())
    ||| (config.show_warning && e.severity == Severity::Warning.spec_text())
    ||| (config.show_error && e.severity == Severity::Error.spec_text())
}

/// Category gate: either every category is chosen, or the entry's category
/// equals the chosen one exactly (no fuzzy comparison here).
pub open spec fn passes_category(config: FilterConfig, e: EntryModel) -> bool {
    match config.category_choice {
        Option::None => true,
        Option::Some(c) => e.category == c@,
    }
}

/// Text gate: an empty search text passes everything, otherwise the search
/// text must fuzzy-match the message body.
pub open spec fn passes_text(config: FilterConfig, e: EntryModel) -> bool {
    config.search_text@.len() == 0 || fuzzy_matches(config.search_text@, e.message)
}

/// The full predicate: all three gates, conjunctively.
pub open spec fn passes(config: FilterConfig, e: EntryModel) -> bool {
    passes_severity(config, e) && passes_category(config, e) && passes_text(config, e)
}

/// What a query yields: the entries that pass all three gates, kept in
/// store order, neither reordered nor deduplicated.
pub open spec fn query_results(entries: Seq<Entry>, config: FilterConfig) -> Seq<Entry> {
    entries.filter(|e: Entry| passes(config, e@))
}

/// Evaluates the full predicate on one entry.
pub fn entry_passes(e: &Entry, config: &FilterConfig) -> (r: bool)
    ensures
        r == passes(*config, e@),
{
    let sev = (config.show_log && str_eq(e.severity.as_str(), "Log")) || (config.show_warning
        && str_eq(e.severity.as_str(), "Warning")) || (config.show_error && str_eq(
        e.severity.as_str(),
        "Error",
    ));
    if !sev {
        return false;
    }
    match &config.category_choice {
        Option::Some(c) => {
            if !str_eq(e.category.as_str(), c.as_str()) {
                return false;
            }
        },
        Option::None => {},
    }
    if config.search_text.as_str().is_empty() {
        return true;
    }
    fuzzy_match(config.search_text.as_str(), e.message.as_str())
}

/// Runs one query: walks the store in order and yields exactly the entries
/// that pass all three gates. Each run recomputes independently of any
/// earlier run.
pub fn query(source: &LogSource, config: &FilterConfig) -> (r: Vec<Entry>)
    ensures
        r@ == query_results(source.entries@, *config),
{
    let ghost pred = |e: Entry| passes(*config, e@);
    let mut out: Vec<Entry> = Vec::new();
    let n = source.entries.len();
    proof {
        reveal(Seq::filter);
        assert(source.entries@.subrange(0, 0) =~= Seq::<Entry>::empty());
        assert(out@ =~= source.entries@.subrange(0, 0).filter(pred));
    }
    let mut i: usize = 0;
    while i < n
        invariant
            n == source.entries@.len(),
            i <= n,
            pred == (|e: Entry| passes(*config, e@)),
            out@ == source.entries@.subrange(0, i as int).filter(pred),
        decreases n - i,
    {
        let e = &source.entries[i];
        if entry_passes(e, config) {
            out.push(e.clone());
        }
        proof {
            reveal(Seq::filter);
            let sub1 = source.entries@.subrange(0, i + 1);
            assert(sub1.drop_last() =~= source.entries@.subrange(0, i as int));
            assert(sub1.last() == source.entries@[i as int]);
            if pred(source.entries@[i as int]) {
                assert(out@ =~= sub1.drop_last().filter(pred).push(sub1.last()));
            }
            assert(out@ == sub1.filter(pred));
        }
        i = i + 1;
    }
    proof {
        assert(source.entries@.subrange(0, n as int) =~= source.entries@);
    }
    out
}

} // verus!
