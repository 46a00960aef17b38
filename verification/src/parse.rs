//! The line parser: extracts `[severity][category]: message` from one raw line.

use vstd::prelude::*;
use crate::entry::{Entry, EntryModel};

verus! {

/// `i` and `j` cut `s` as `[` severity `][` category `]: ` message, with
/// `s[i]` closing the severity field and `s[j]` closing the category field.
/// Each captured field runs up to the *next* closing bracket, so neither may
/// contain `]`; the message is the unconstrained remainder.
pub open spec fn is_match_at(s: Seq<char>, i: int, j: int) -> bool {
    &&& 1 <= i
    &&& i + 2 <= j
    &&& j + 3 <= s.len()
    &&& s[0] == '['
    &&& s[i] == ']'
    &&& s[i + 1] == '['
    &&& s[j] == ']'
    &&& s[j + 1] == ':'
    &&& s[j + 2] == ' '
    &&& forall|k: int| 1 <= k < i ==> s[k] != ']'
    &&& forall|k: int| i + 2 <= k < j ==> s[k] != ']'
}

/// A raw line is structurally valid when some cut matches the pattern.
pub open spec fn line_matches(s: Seq<char>) -> bool {
    exists|i: int, j: int| is_match_at(s, i, j)
}

/// At most one cut matches: both closing brackets are the first `]` after
/// their field starts.
pub proof fn lemma_match_cut_unique(s: Seq<char>, i1: int, j1: int, i2: int, j2: int)
    requires
        is_match_at(s, i1, j1),
        is_match_at(s, i2, j2),
    ensures
        i1 == i2,
        j1 == j2,
{
    assert(i1 == i2) by {
        if i1 < i2 {
            assert(s[i1] != ']');
        } else if i2 < i1 {
            assert(s[i2] != ']');
        }
    }
    assert(j1 == j2) by {
        if j1 < j2 {
            assert(s[j1] != ']');
        } else if j2 < j1 {
            assert(s[j2] != ']');
        }
    }
}

/// What parsing one raw line yields: the record for a structurally valid
/// line, nothing for any other line.
pub open spec fn parse_line_model(s: Seq<char>, line_number: int) -> Option<EntryModel> {
    if line_matches(s) {
        let (i, j) = choose|i: int, j: int| is_match_at(s, i, j);
        Some(EntryModel {
            line_number: line_number,
            severity: s.subrange(1, i),
            category: s.subrange(i + 2, j),
            message: s.subrange(j + 3, s.len() as int),
        })
    } else {
        None
    }
}

/// Index of the first `]` at or after `start`, if `line` has one there.
fn find_close(line: &str, start: usize, len: usize) -> (r: Option<usize>)
    requires
        start <= len,
        len == line@.len(),
    ensures
        match r {
            Some(i) => {
                &&& start <= i < len
                &&& line@[i as int] == ']'
                &&& forall|k: int| start <= k < i ==> line@[k] != ']'
            },
            None => forall|k: int| start <= k < len ==> line@[k] != ']',
        },
{
    let mut pos = start;
    while pos < len
        invariant
            start <= pos <= len,
            len == line@.len(),
            forall|k: int| start <= k < pos ==> line@[k] != ']',
        decreases len - pos,
    {
        if line.get_char(pos) == ']' {
            return Some(pos);
        }
        pos = pos + 1;
    }
    None
}

/// Parses one raw line against the pattern `[severity][category]: message`.
///
/// A structurally valid line yields exactly one record carrying the
/// caller-assigned line number; any other line is dropped silently: malformed
/// or continuation lines contribute nothing and raise no error, by design.
pub fn parse_line(line: &str, line_number: usize) -> (r: Option<Entry>)
    ensures
        match r {
            Some(e) => {
                &&& parse_line_model(line@, line_number as int) == Some(e@)
                &&& e.line_number == line_number
            },
            None => parse_line_model(line@, line_number as int) is None,
        },
{
    let len = line.unicode_len();
    if len == 0 || line.get_char(0) != '[' {
        proof {
            assert(forall|i: int, j: int| !is_match_at(line@, i, j));
        }
        return None;
    }
    let i = match find_close(line, 1, len) {
        Some(i) => i,
        None => {
            proof {
                assert(forall|i: int, j: int| !is_match_at(line@, i, j));
            }
            return None;
        },
    };
    if i + 1 >= len || line.get_char(i + 1) != '[' {
        proof {
            assert forall|i2: int, j2: int| !is_match_at(line@, i2, j2) by {
                if is_match_at(line@, i2, j2) {
                    assert(i2 == i) by {
                        if i2 < i {
                            assert(line@[i2] != ']');
                        } else if i < i2 {
                            assert(line@[i as int] != ']');
                        }
                    }
                }
            }
        }
        return None;
    }
    let j = match find_close(line, i + 2, len) {
        Some(j) => j,
        None => {
            proof {
                assert forall|i2: int, j2: int| !is_match_at(line@, i2, j2) by {
                    if is_match_at(line@, i2, j2) {
                        assert(i2 == i) by {
                            if i2 < i {
                                assert(line@[i2] != ']');
                            } else if i < i2 {
                                assert(line@[i as int] != ']');
                            }
                        }
                        assert(line@[j2] != ']');
                    }
                }
            }
            return None;
        },
    };
    if len - j < 3 || line.get_char(j + 1) != ':' || line.get_char(j + 2) != ' ' {
        proof {
            assert forall|i2: int, j2: int| !is_match_at(line@, i2, j2) by {
                if is_match_at(line@, i2, j2) {
                    lemma_forced_cut(line@, i as int, j as int, i2, j2);
                }
            }
        }
        return None;
    }
    let severity = String::from_str(line.substring_char(1, i));
    let category = String::from_str(line.substring_char(i + 2, j));
    let message = String::from_str(line.substring_char(j + 3, len));
    let entry = Entry { line_number, severity, category, message };
    proof {
        assert(is_match_at(line@, i as int, j as int));
        let (ci, cj) = choose|ci: int, cj: int| is_match_at(line@, ci, cj);
        lemma_match_cut_unique(line@, ci, cj, i as int, j as int);
        assert(parse_line_model(line@, line_number as int) == Some(entry@));
    }
    Some(entry)
}

/// Any matching cut coincides with the first closing bracket found after
/// each field start.
proof fn lemma_forced_cut(s: Seq<char>, i: int, j: int, i2: int, j2: int)
    requires
        is_match_at(s, i2, j2),
        1 <= i < s.len(),
        s[i] == ']',
        forall|k: int| 1 <= k < i ==> s[k] != ']',
        i + 2 <= j < s.len(),
        s[j] == ']',
        forall|k: int| i + 2 <= k < j ==> s[k] != ']',
    ensures
        i2 == i,
        j2 == j,
{
    assert(i2 == i) by {
        if i2 < i {
            assert(s[i2] != ']');
        } else if i < i2 {
            assert(s[i] != ']');
        }
    }
    assert(j2 == j) by {
        if j2 < j {
            assert(s[j2] != ']');
        } else if j < j2 {
            assert(s[j] != ']');
        }
    }
}

} // verus!
