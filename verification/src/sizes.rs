//! The folder-size cache written by earlier versions: one folder per line,
//! `uri TAB bytes TAB measured`.

use vstd::prelude::*;

use crate::lines::{lines_of, parse_u64, split_lines, split_three, three_fields, u64_text};
use crate::text::string_from;

verus! {

/// One cache line read: the folder's URI, its size and when it was
/// measured; `None` unless the line is exactly three fields with two
/// numbers.
pub open spec fn size_entry(line: Seq<char>) -> Option<(Seq<char>, u64, u64)> {
    match three_fields(line) {
        Some(f) => match (u64_text(f.1), u64_text(f.2)) {
            (Some(bytes), Some(measured)) => Some((f.0, bytes, measured)),
            _ => None,
        },
        None => None,
    }
}

/// Reads one cache line (see `size_entry`).
pub fn size_line(line: &[char]) -> (r: Option<(String, u64, u64)>)
    ensures
        match r {
            Some(e) => size_entry(line@) == Some((e.0@, e.1, e.2)),
            None => size_entry(line@) is None,
        },
{
    match split_three(line) {
        None => None,
        Some(f) => match (parse_u64(&f.1), parse_u64(&f.2)) {
            (Some(bytes), Some(measured)) => Some((string_from(&f.0), bytes, measured)),
            _ => None,
        },
    }
}

/// The readable entries of a whole cache, in order.
pub open spec fn size_entries(lines: Seq<Seq<char>>) -> Seq<(Seq<char>, u64, u64)>
    decreases lines.len(),
{
    if lines.len() == 0 {
        Seq::empty()
    } else {
        let rest = size_entries(lines.drop_last());
        match size_entry(lines.last()) {
            Some(e) => rest.push(e),
            None => rest,
        }
    }
}

/// Reads a cache file's text (see `size_entries`).
pub fn size_cache(text: &str) -> (r: Vec<(String, u64, u64)>)
    ensures
        r@.map_values(|e: (String, u64, u64)| (e.0@, e.1, e.2)) == size_entries(lines_of(text@)),
{
    let chars = crate::text::chars_of(text);
    let lines = split_lines(&chars);
    let ghost views = lines@.map_values(|l: Vec<char>| l@);
    let mut out: Vec<(String, u64, u64)> = Vec::new();
    let n = lines.len();
    for k in 0..n
        invariant
            n == lines@.len(),
            views == lines@.map_values(|l: Vec<char>| l@),
            views == lines_of(text@),
            out@.map_values(|e: (String, u64, u64)| (e.0@, e.1, e.2)) == size_entries(views.take(k as int)),
    {
        proof {
            assert(views.take(k + 1).drop_last() == views.take(k as int));
            assert(views.take(k + 1).last() == lines@[k as int]@);
        }
        let ghost before = out@.map_values(|e: (String, u64, u64)| (e.0@, e.1, e.2));
        match size_line(&lines[k]) {
            Some(e) => {
                out.push(e);
                assert(out@.map_values(|e: (String, u64, u64)| (e.0@, e.1, e.2)) == before.push(
                    (e.0@, e.1, e.2),
                ));
            },
            None => {},
        }
    }
    assert(views.take(n as int) == views);
    out
}

} // verus!
