use logger_core::entry::Entry;
use logger_core::filter::{query, FilterConfig};
use logger_core::matcher::{fuzzy_match, str_eq};
use logger_core::parse::parse_line;
use logger_core::severity::{format_log_line, Severity};
use logger_core::source::LogSource;

fn config_all() -> FilterConfig {
    FilterConfig {
        show_log: true,
        show_warning: true,
        show_error: true,
        category_choice: None,
        search_text: String::new(),
    }
}

fn line_numbers(entries: &[Entry]) -> Vec<usize> {
    entries.iter().map(|e| e.line_number).collect()
}

fn sample_source() -> LogSource {
    let lines = vec![
        "[Log][Net]: connected".to_string(),
        "garbage line".to_string(),
        "[Error][Net]: timeout".to_string(),
        "[Warning][Disk]: slow read".to_string(),
    ];
    LogSource::from_lines("log.log".to_string(), &lines)
}

#[test]
fn parse_valid_line() {
    let e = parse_line("[Log][Net]: connected", 1).expect("line should parse");
    assert_eq!(e.line_number, 1);
    assert_eq!(e.severity, "Log");
    assert_eq!(e.category, "Net");
    assert_eq!(e.message, "connected");
}

#[test]
fn parse_empty_message() {
    let e = parse_line("[Error][Disk]: ", 7).expect("line should parse");
    assert_eq!(e.severity, "Error");
    assert_eq!(e.category, "Disk");
    assert_eq!(e.message, "");
}

#[test]
fn parse_unrecognized_severity_passthrough() {
    // A structurally valid line with an unknown severity label is still
    // produced; rejection is not the parser's business.
    let e = parse_line("[Debug][Net]: probe", 3).expect("line should parse");
    assert_eq!(e.severity, "Debug");
}

#[test]
fn parse_message_with_brackets() {
    let e = parse_line("[Log][Net]: data [x][y]: nested", 1).expect("line should parse");
    assert_eq!(e.severity, "Log");
    assert_eq!(e.category, "Net");
    assert_eq!(e.message, "data [x][y]: nested");
}

#[test]
fn parse_rejects_malformed_lines() {
    assert!(parse_line("garbage line", 1).is_none());
    assert!(parse_line("", 1).is_none());
    assert!(parse_line("[Log][Net] no delimiter", 1).is_none());
    assert!(parse_line("[Log]: half", 1).is_none());
    assert!(parse_line("no brackets at all", 1).is_none());
}

#[test]
fn ingest_reports_and_numbers() {
    let mut source = LogSource::new("s".to_string());
    assert!(source.ingest("[Log][Net]: up", 1));
    assert!(!source.ingest("noise", 2));
    assert!(source.ingest("[Error][Net]: down", 3));
    assert_eq!(line_numbers(&source.entries), vec![1, 3]);
}

#[test]
fn malformed_batch_changes_nothing() {
    let mut source = LogSource::new("s".to_string());
    source.ingest("[Log][Net]: up", 1);
    let categories_before = source.categories.clone();
    let entries_before = source.entries.len();
    for (offset, line) in ["junk", "]: [", "[]["].into_iter().enumerate() {
        assert!(!source.ingest(line, 2 + offset));
    }
    assert_eq!(source.categories, categories_before);
    assert_eq!(source.entries.len(), entries_before);
    assert_eq!(source.dropped, 3);
}

#[test]
fn dropped_lines_are_counted() {
    let source = sample_source();
    assert_eq!(source.dropped, 1);
    assert_eq!(source.entries.len() + source.dropped, 4);
}

#[test]
fn category_index_is_exact_and_deduplicated() {
    let source = sample_source();
    let mut cats = source.categories.clone();
    cats.sort();
    assert_eq!(cats, vec!["Disk".to_string(), "Net".to_string()]);
}

#[test]
fn sample_scenario() {
    let source = sample_source();
    assert_eq!(source.entries.len(), 3);
    assert_eq!(line_numbers(&source.entries), vec![1, 3, 4]);

    let mut errors_and_warnings = config_all();
    errors_and_warnings.show_log = false;
    let r = query(&source, &errors_and_warnings);
    assert_eq!(line_numbers(&r), vec![3, 4]);

    let mut net_only = config_all();
    net_only.category_choice = Some("Net".to_string());
    let r = query(&source, &net_only);
    assert_eq!(line_numbers(&r), vec![1, 3]);
}

#[test]
fn unknown_severity_is_never_yielded() {
    let lines = vec!["[Debug][Net]: probe".to_string()];
    let source = LogSource::from_lines("s".to_string(), &lines);
    assert_eq!(source.entries.len(), 1);
    let r = query(&source, &config_all());
    assert!(r.is_empty());
}

#[test]
fn category_gate_is_exact_not_fuzzy() {
    let source = sample_source();
    let mut cfg = config_all();
    cfg.category_choice = Some("Ne".to_string());
    assert!(query(&source, &cfg).is_empty());
    cfg.category_choice = Some("net".to_string());
    assert!(query(&source, &cfg).is_empty());
}

#[test]
fn text_gate_fuzzy_matches() {
    let source = sample_source();
    let mut cfg = config_all();
    cfg.search_text = "timo".to_string();
    let r = query(&source, &cfg);
    assert_eq!(line_numbers(&r), vec![3]);
    cfg.search_text = "xyz".to_string();
    assert!(query(&source, &cfg).is_empty());
}

#[test]
fn gates_are_conjunctive() {
    let source = sample_source();
    let mut cfg = config_all();
    // The text gate alone would keep line 3 ("timeout"), but the severity
    // gate excludes errors: together they yield nothing.
    cfg.search_text = "timo".to_string();
    cfg.show_error = false;
    assert!(query(&source, &cfg).is_empty());
    // The category gate alone would keep lines 1 and 3, the severity gate
    // lines 3 and 4: together exactly line 3.
    let mut cfg = config_all();
    cfg.show_log = false;
    cfg.category_choice = Some("Net".to_string());
    assert_eq!(line_numbers(&query(&source, &cfg)), vec![3]);
}

#[test]
fn query_is_idempotent() {
    let source = sample_source();
    let mut cfg = config_all();
    cfg.search_text = "e".to_string();
    let r1 = line_numbers(&query(&source, &cfg));
    let r2 = line_numbers(&query(&source, &cfg));
    assert_eq!(r1, r2);
}

#[test]
fn fuzzy_matcher_examples() {
    assert!(fuzzy_match("timo", "timeout"));
    assert!(!fuzzy_match("xyz", "timeout"));
    assert!(fuzzy_match("", "anything"));
    assert!(fuzzy_match("", ""));
    assert!(!fuzzy_match("a", ""));
    assert!(fuzzy_match("slr", "slow read"));
    assert!(!fuzzy_match("timot", "timo"));
    // In order only: the characters must appear in the query's order.
    assert!(!fuzzy_match("ot", "timo"));
}

#[test]
fn str_eq_examples() {
    assert!(str_eq("Net", "Net"));
    assert!(!str_eq("Net", "Ne"));
    assert!(!str_eq("Net", "net"));
    assert!(str_eq("", ""));
}

#[test]
fn severity_text_tags() {
    assert_eq!(Severity::Log.text(), "Log");
    assert_eq!(Severity::Warning.text(), "Warning");
    assert_eq!(Severity::Error.text(), "Error");
}

#[test]
fn format_log_line_exact() {
    let line = format_log_line(Severity::Warning, "Disk", "slow read");
    assert_eq!(line, "[Warning][Disk]: slow read\n");
    let line = format_log_line(Severity::Log, "Net", "");
    assert_eq!(line, "[Log][Net]: \n");
}

#[test]
fn format_then_parse_round_trip() {
    let line = format_log_line(Severity::Error, "Net", "timeout");
    let stripped = line.strip_suffix('\n').expect("formatted line ends in newline");
    let e = parse_line(stripped, 9).expect("formatted line should parse");
    assert_eq!(e.line_number, 9);
    assert_eq!(e.severity, "Error");
    assert_eq!(e.category, "Net");
    assert_eq!(e.message, "timeout");
}
