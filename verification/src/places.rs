//! The Places sidebar: the starting folder from the command line, pinned
//! folders and the bookmark files of other file managers.

use vstd::prelude::*;

use crate::lines::{lines_from, lines_of, next_of, split_lines};
use crate::paths::{file_name_of, path_eq, path_file_name, same_path};
use crate::text::{
    begins_with,
    chars_of,
    opt_text,
    matches_at,
    occurs_at,
    owned,
    push_char,
    push_text,
    same_text,
    split_words,
    starts_with,
    string_from,
    words,
};

verus! {

/// The folder named on the command line (`args` without the program
/// name): the value after the first `--here`, or of the first non-empty
/// `--here=…`; when none is given, the `QFIND_ROOT` value `env`.  Empty
/// values name nothing.
pub open spec fn here_from(args: Seq<Seq<char>>, i: int, env: Option<Seq<char>>) -> Option<Seq<char>>
    decreases args.len() - i,
{
    if i < 0 || i >= args.len() {
        match env {
            Some(e) => if e.len() > 0 {
                Some(e)
            } else {
                None
            },
            None => None,
        }
    } else if args[i] == "--here"@ {
        if i + 1 < args.len() && args[i + 1].len() > 0 {
            Some(args[i + 1])
        } else {
            None
        }
    } else if starts_with(args[i], "--here="@) && args[i].len() > "--here="@.len() {
        Some(args[i].skip("--here="@.len() as int))
    } else {
        here_from(args, i + 1, env)
    }
}

/// The starting folder (see `here_from`).
pub fn parse_here(args: &Vec<String>, env: Option<String>) -> (r: Option<String>)
    ensures
        opt_text(r) == here_from(args@.map_values(|a: String| a@), 0, opt_text(env)),
{
    let ghost views = args@.map_values(|a: String| a@);
    let ghost env_view = opt_text(env);
    let flag = chars_of("--here");
    let prefix = chars_of("--here=");
    let mut i: usize = 0;
    while i < args.len()
        invariant
            i <= args@.len(),
            views == args@.map_values(|a: String| a@),
            env_view == opt_text(env),
            flag@ == "--here"@,
            prefix@ == "--here="@,
            here_from(views, 0, env_view) == here_from(views, i as int, env_view),
        decreases args@.len() - i,
    {
        let a = chars_of(args[i].as_str());
        assert(views[i as int] == a@);
        if same_text(&a, &flag) {
            assert(views[i as int] == "--here"@);
            if i + 1 < args.len() && !args[i + 1].as_str().is_empty() {
                assert(views[i + 1] == args@[i + 1]@);
                assert(here_from(views, i as int, env_view) == Some(views[i + 1]));
                return Some(owned(args[i + 1].as_str()));
            }
            if i + 1 < args.len() {
                assert(views[i + 1] == args@[i + 1]@);
            }
            return None;
        }
        if begins_with(&a, &prefix) && a.len() > prefix.len() {
            let mut rest: Vec<char> = Vec::new();
            let mut k = prefix.len();
            while k < a.len()
                invariant
                    prefix@.len() <= k <= a@.len(),
                    rest@ == a@.subrange(prefix@.len() as int, k as int),
                decreases a@.len() - k,
            {
                rest.push(a[k]);
                k = k + 1;
            }
            assert(rest@ == a@.skip(prefix@.len() as int));
            return Some(string_from(&rest));
        }
        i = i + 1;
    }
    match env {
        Some(e) => if e.as_str().is_empty() {
            None
        } else {
            Some(e)
        },
        None => None,
    }
}

/// The URI of each bookmark line of GTK's bookmark file: its first word;
/// lines without a word give nothing.
pub open spec fn bookmark_uris_of(lines: Seq<Seq<char>>) -> Seq<Seq<char>>
    decreases lines.len(),
{
    if lines.len() == 0 {
        Seq::empty()
    } else {
        let rest = bookmark_uris_of(lines.drop_last());
        let w = words(lines.last());
        if w.len() > 0 {
            rest.push(w[0])
        } else {
            rest
        }
    }
}

/// The URIs listed in a GTK bookmark file (see `bookmark_uris_of`).
pub fn bookmark_uris(text: &str) -> (r: Vec<String>)
    ensures
        r@.map_values(|u: String| u@) == bookmark_uris_of(lines_of(text@)),
{
    let chars = chars_of(text);
    let lines = split_lines(&chars);
    let ghost views = lines@.map_values(|l: Vec<char>| l@);
    let mut out: Vec<String> = Vec::new();
    let n = lines.len();
    for k in 0..n
        invariant
            n == lines@.len(),
            views == lines@.map_values(|l: Vec<char>| l@),
            views == lines_of(text@),
            out@.map_values(|u: String| u@) == bookmark_uris_of(views.take(k as int)),
    {
        let w = split_words(&lines[k]);
        let ghost before = out@.map_values(|u: String| u@);
        proof {
            assert(views.take(k + 1).drop_last() == views.take(k as int));
            assert(views.take(k + 1).last() == lines@[k as int]@);
        }
        if w.len() > 0 {
            out.push(string_from(&w[0]));
            assert(out@.map_values(|u: String| u@) == before.push(w@[0]@));
        }
    }
    assert(views.take(n as int) == views);
    out
}

/// The text before an `href` value.
pub open spec fn href_marker() -> Seq<char> {
    seq!['h', 'r', 'e', 'f', '=', '"']
}

/// The `href` values of a KDE places file: for each `href="` after the
/// first, the text up to the next `"`.
pub open spec fn hrefs_from(s: Seq<char>, i: int) -> Seq<Seq<char>>
    decreases s.len() - i,
{
    if i < 0 || i >= s.len() {
        Seq::empty()
    } else if occurs_at(s, href_marker(), i) {
        let start = i + 6;
        let end = next_of(s, start, '"');
        seq![s.subrange(start, end)] + hrefs_from(s, start)
    } else {
        hrefs_from(s, i + 1)
    }
}

/// The `href` values of a KDE places file (see `hrefs_from`).
pub fn xbel_hrefs(text: &str) -> (r: Vec<String>)
    ensures
        r@.map_values(|u: String| u@) == hrefs_from(text@, 0),
{
    let s = chars_of(text);
    let marker = chars_of("href=\"");
    let n = s.len();
    let mut out: Vec<String> = Vec::new();
    let mut i: usize = 0;
    proof {
        reveal_strlit("href=\"");
        assert(marker@ == href_marker());
    }
    while i < n
        invariant
            n == s@.len(),
            s@ == text@,
            marker@ == href_marker(),
            i <= n,
            hrefs_from(text@, 0) == out@.map_values(|u: String| u@) + hrefs_from(text@, i as int),
        decreases n - i,
    {
        if matches_at(&s, &marker, i) {
            let start = i + 6;
            let mut end = start;
            let mut value: Vec<char> = Vec::new();
            while end < n && s[end] != '"'
                invariant
                    start <= end <= n,
                    n == s@.len(),
                    next_of(s@, start as int, '"') == next_of(s@, end as int, '"'),
                    value@ == s@.subrange(start as int, end as int),
                decreases n - end,
            {
                value.push(s[end]);
                end = end + 1;
            }
            let ghost before = out@.map_values(|u: String| u@);
            out.push(string_from(&value));
            proof {
                assert(out@.map_values(|u: String| u@) == before.push(value@));
                assert(hrefs_from(text@, i as int) == seq![value@] + hrefs_from(text@, start as int));
                assert(before + (seq![value@] + hrefs_from(text@, start as int)) == before.push(value@)
                    + hrefs_from(text@, start as int));
            }
            i = start;
        } else {
            i = i + 1;
        }
    }
    proof {
        assert(hrefs_from(text@, i as int) == Seq::<Seq<char>>::empty());
        assert(out@.map_values(|u: String| u@) + Seq::<Seq<char>>::empty() == out@.map_values(
            |u: String| u@,
        ));
    }
    out
}

/// Whether `p` equals (as a path) one of `kept`.
pub open spec fn among(kept: Seq<Seq<char>>, p: Seq<char>) -> bool {
    exists|j: int| 0 <= j < kept.len() && same_path(kept[j], p)
}

/// The paths with later repeats (equal as paths to one kept earlier)
/// dropped, first occurrences in order.
pub open spec fn first_occurrences(paths: Seq<Seq<char>>) -> Seq<Seq<char>>
    decreases paths.len(),
{
    if paths.len() == 0 {
        Seq::empty()
    } else {
        let kept = first_occurrences(paths.drop_last());
        if among(kept, paths.last()) {
            kept
        } else {
            kept.push(paths.last())
        }
    }
}

fn is_among(kept: &Vec<String>, p: &str) -> (r: bool)
    ensures
        r == among(kept@.map_values(|u: String| u@), p@),
{
    let ghost views = kept@.map_values(|u: String| u@);
    let mut j: usize = 0;
    while j < kept.len()
        invariant
            j <= kept@.len(),
            views == kept@.map_values(|u: String| u@),
            forall|m: int| 0 <= m < j ==> !same_path(views[m], p@),
        decreases kept@.len() - j,
    {
        assert(views[j as int] == kept@[j as int]@);
        if path_eq(kept[j].as_str(), p) {
            return true;
        }
        j = j + 1;
    }
    false
}

/// The places with repeats dropped (see `first_occurrences`).
pub fn dedup_paths(paths: &Vec<String>) -> (r: Vec<String>)
    ensures
        r@.map_values(|u: String| u@) == first_occurrences(paths@.map_values(|u: String| u@)),
{
    let ghost views = paths@.map_values(|u: String| u@);
    let mut kept: Vec<String> = Vec::new();
    let n = paths.len();
    for k in 0..n
        invariant
            n == paths@.len(),
            views == paths@.map_values(|u: String| u@),
            kept@.map_values(|u: String| u@) == first_occurrences(views.take(k as int)),
    {
        proof {
            assert(views.take(k + 1).drop_last() == views.take(k as int));
            assert(views.take(k + 1).last() == paths@[k as int]@);
        }
        if !is_among(&kept, paths[k].as_str()) {
            let ghost before = kept@.map_values(|u: String| u@);
            kept.push(owned(paths[k].as_str()));
            assert(kept@.map_values(|u: String| u@) == before.push(paths@[k as int]@));
        }
    }
    assert(views.take(n as int) == views);
    kept
}

/// The pinned folders after pinning (`active`) or unpinning `path`: every
/// entry equal to it as a path is removed, and when pinning it is added at
/// the end.
pub open spec fn pinned_after(saved: Seq<Seq<char>>, path: Seq<char>, active: bool) -> Seq<Seq<char>> {
    let rest = saved.filter(|p: Seq<char>| !same_path(p, path));
    if active {
        rest.push(path)
    } else {
        rest
    }
}

/// The pinned folders after a pin or unpin (see `pinned_after`).
pub fn set_pinned(saved: &Vec<String>, path: &str, active: bool) -> (r: Vec<String>)
    ensures
        r@.map_values(|u: String| u@) == pinned_after(saved@.map_values(|u: String| u@), path@, active),
{
    let ghost views = saved@.map_values(|u: String| u@);
    let mut out: Vec<String> = Vec::new();
    let n = saved.len();
    for k in 0..n
        invariant
            n == saved@.len(),
            views == saved@.map_values(|u: String| u@),
            out@.map_values(|u: String| u@) == views.take(k as int).filter(
                |p: Seq<char>| !same_path(p, path@),
            ),
    {
        let ghost before = out@.map_values(|u: String| u@);
        proof {
            assert(views.take(k + 1).drop_last() == views.take(k as int));
            assert(views.take(k + 1).last() == saved@[k as int]@);
            views.take(k as int).lemma_filter_push(saved@[k as int]@, |p: Seq<char>| !same_path(p, path@));
            assert(views.take(k as int).push(saved@[k as int]@) == views.take(k + 1));
        }
        if !path_eq(saved[k].as_str(), path) {
            out.push(owned(saved[k].as_str()));
            assert(out@.map_values(|u: String| u@) == before.push(saved@[k as int]@));
        }
    }
    assert(views.take(n as int) == views);
    if active {
        let ghost before = out@.map_values(|u: String| u@);
        out.push(owned(path));
        assert(out@.map_values(|u: String| u@) == before.push(path@));
    }
    out
}

/// The pinned folders as the bookmark file holds them: one per line, no
/// line break after the last.
pub open spec fn pins_text(pins: Seq<Seq<char>>) -> Seq<char>
    decreases pins.len(),
{
    if pins.len() == 0 {
        Seq::empty()
    } else if pins.len() == 1 {
        pins[0]
    } else {
        pins_text(pins.drop_last()) + seq!['\n'] + pins.last()
    }
}

/// The text of the bookmark file (see `pins_text`).
pub fn bookmarks_text(pins: &Vec<String>) -> (r: String)
    ensures
        r@ == pins_text(pins@.map_values(|u: String| u@)),
{
    let ghost views = pins@.map_values(|u: String| u@);
    let mut s = String::new();
    let n = pins.len();
    for k in 0..n
        invariant
            n == pins@.len(),
            views == pins@.map_values(|u: String| u@),
            s@ == pins_text(views.take(k as int)),
    {
        if k > 0 {
            push_char(&mut s, '\n');
        }
        push_text(&mut s, pins[k].as_str());
        proof {
            assert(views.take(k + 1).drop_last() == views.take(k as int));
            assert(views.take(k + 1).last() == pins@[k as int]@);
            if k == 0 {
                assert(views.take(1) == seq![pins@[0]@]);
            }
        }
    }
    assert(views.take(n as int) == views);
    s
}

/// The label of a pinned folder: its name, or `"Folder"` when it has none.
pub fn place_name(path: &str) -> (r: String)
    ensures
        r@ == match path_file_name(path@) {
            Some(n) => n,
            None => "Folder"@,
        },
{
    match file_name_of(path) {
        Some(n) => n,
        None => owned("Folder"),
    }
}

/// A text the bookmark file can hold as one line: no line break in it and
/// no carriage return at its end.
pub open spec fn one_line(t: Seq<char>) -> bool {
    &&& forall|k: int| 0 <= k < t.len() ==> #[trigger] t[k] != '\n'
    &&& t.len() > 0 ==> t.last() != '\r'
}

/// The pins from the `k`-th on, each but the last followed by a line break.
pub open spec fn pins_from(pins: Seq<Seq<char>>, k: int) -> Seq<char>
    decreases pins.len() - k,
{
    if k < 0 || k >= pins.len() {
        Seq::empty()
    } else if k == pins.len() - 1 {
        pins[k]
    } else {
        pins[k] + seq!['\n'] + pins_from(pins, k + 1)
    }
}

proof fn lemma_pins_from_push(q: Seq<Seq<char>>, x: Seq<char>, k: int)
    requires
        0 <= k < q.len(),
    ensures
        pins_from(q.push(x), k) == pins_from(q, k) + seq!['\n'] + x,
    decreases q.len() - k,
{
    let p = q.push(x);
    assert(p[k] == q[k]);
    if k == q.len() - 1 {
        assert(pins_from(p, k + 1) == x);
    } else {
        lemma_pins_from_push(q, x, k + 1);
        assert(pins_from(p, k) == p[k] + seq!['\n'] + pins_from(p, k + 1));
        assert(pins_from(q, k) == q[k] + seq!['\n'] + pins_from(q, k + 1));
    }
}

proof fn lemma_pins_text_front(pins: Seq<Seq<char>>)
    ensures
        pins_text(pins) == pins_from(pins, 0),
    decreases pins.len(),
{
    if pins.len() > 1 {
        let q = pins.drop_last();
        lemma_pins_text_front(q);
        lemma_pins_from_push(q, pins.last(), 0);
        assert(q.push(pins.last()) == pins);
    }
}

proof fn lemma_pin_lines(pins: Seq<Seq<char>>, prefix: Seq<char>, k: int)
    requires
        0 <= k < pins.len(),
        forall|m: int| 0 <= m < pins.len() ==> one_line(#[trigger] pins[m]),
        pins.last().len() > 0,
    ensures
        lines_from(prefix + pins_from(pins, k), prefix.len() as int) == pins.skip(k),
    decreases pins.len() - k,
{
    let s = prefix + pins_from(pins, k);
    let i = prefix.len() as int;
    let line = pins[k];
    assert(one_line(line));
    let e = i + line.len();
    assert forall|j: int| i <= j < e implies s[j] != '\n' by {
        assert(s[j] == line[j - i]);
    }
    if k == pins.len() - 1 {
        assert(s == prefix + line);
        lemma_next_of_at_end(s, i, '\n');
        assert(s.subrange(i, e) == line);
        assert(lines_from(s, i) == seq![line]);
        assert(pins.skip(k) == seq![line]);
    } else {
        let next = prefix + line + seq!['\n'];
        assert(s == next + pins_from(pins, k + 1));
        assert(s[e] == '\n');
        lemma_next_of_stop(s, i, e, '\n');
        assert(s.subrange(i, e) == line);
        lemma_pin_lines(pins, next, k + 1);
        assert(next.len() == e + 1);
        assert(lines_from(s, i) == seq![line] + lines_from(s, e + 1));
        assert(seq![line] + pins.skip(k + 1) == pins.skip(k));
    }
}

proof fn lemma_next_of_stop(s: Seq<char>, i: int, j: int, c: char)
    requires
        0 <= i <= j < s.len(),
        forall|k: int| i <= k < j ==> s[k] != c,
        s[j] == c,
    ensures
        next_of(s, i, c) == j,
    decreases j - i,
{
    if i < j {
        lemma_next_of_stop(s, i + 1, j, c);
    }
}

proof fn lemma_next_of_at_end(s: Seq<char>, i: int, c: char)
    requires
        0 <= i <= s.len(),
        forall|k: int| i <= k < s.len() ==> s[k] != c,
    ensures
        next_of(s, i, c) == s.len(),
    decreases s.len() - i,
{
    if i < s.len() {
        lemma_next_of_at_end(s, i + 1, c);
    }
}

/// The bookmark file reads back as written: when no pinned path holds a
/// line break or ends with a carriage return, and the last is not empty,
/// the lines of the file are the pinned paths.
pub proof fn pins_read_back(pins: Seq<Seq<char>>)
    requires
        forall|m: int| 0 <= m < pins.len() ==> one_line(#[trigger] pins[m]),
        pins.len() > 0 ==> pins.last().len() > 0,
    ensures
        lines_of(pins_text(pins)) == pins,
{
    lemma_pins_text_front(pins);
    if pins.len() > 0 {
        lemma_pin_lines(pins, Seq::empty(), 0);
        assert(Seq::<char>::empty() + pins_from(pins, 0) == pins_from(pins, 0));
        assert(pins.skip(0) == pins);
    } else {
        assert(pins_text(pins) == Seq::<char>::empty());
    }
}

/// Pinning puts the path last and leaves no other entry equal to it as a
/// path; unpinning leaves no entry equal to it; other entries keep their
/// order.
pub proof fn pinning_keeps_one(saved: Seq<Seq<char>>, path: Seq<char>)
    ensures
        pinned_after(saved, path, true).last() == path,
        forall|k: int|
            0 <= k < pinned_after(saved, path, true).len() - 1 ==> !same_path(
                #[trigger] pinned_after(saved, path, true)[k],
                path,
            ),
        forall|k: int|
            0 <= k < pinned_after(saved, path, false).len() ==> !same_path(
                #[trigger] pinned_after(saved, path, false)[k],
                path,
            ),
        pinned_after(saved, path, true).drop_last() == pinned_after(saved, path, false),
{
    let pred = |p: Seq<char>| !same_path(p, path);
    let rest = saved.filter(pred);
    assert forall|k: int| 0 <= k < rest.len() implies !same_path(#[trigger] rest[k], path) by {
        saved.lemma_filter_pred(pred, k);
    }
    assert(rest.push(path).drop_last() == rest);
    assert forall|k: int| 0 <= k < rest.push(path).len() - 1 implies !same_path(#[trigger] rest.push(path)[k], path) by {
        assert(rest.push(path)[k] == rest[k]);
    }
}

/// Dropping repeats keeps no two entries equal as paths (the later never
/// equals an earlier one), and every dropped entry equals a kept one.
pub proof fn dedup_keeps_first(paths: Seq<Seq<char>>)
    ensures
        forall|i: int, j: int|
            0 <= i < j < first_occurrences(paths).len() ==> !same_path(
                #[trigger] first_occurrences(paths)[i],
                #[trigger] first_occurrences(paths)[j],
            ),
        forall|k: int|
            0 <= k < paths.len() ==> first_occurrences(paths).contains(#[trigger] paths[k]) || among(
                first_occurrences(paths),
                paths[k],
            ),
    decreases paths.len(),
{
    if paths.len() > 0 {
        let q = paths.drop_last();
        dedup_keeps_first(q);
        let kept = first_occurrences(q);
        let x = paths.last();
        let out = first_occurrences(paths);
        if among(kept, x) {
            assert(out == kept);
        } else {
            assert(out == kept.push(x));
            assert forall|i: int, j: int| 0 <= i < j < out.len() implies !same_path(
                #[trigger] out[i],
                #[trigger] out[j],
            ) by {
                if j == kept.len() {
                    assert(out[i] == kept[i]);
                    assert(!same_path(kept[i], x));
                } else {
                    assert(out[i] == kept[i]);
                    assert(out[j] == kept[j]);
                }
            }
        }
        assert forall|k: int| 0 <= k < paths.len() implies out.contains(#[trigger] paths[k]) || among(
            out,
            paths[k],
        ) by {
            if k < q.len() {
                assert(paths[k] == q[k]);
                if kept.contains(q[k]) {
                    let w = choose|w: int| 0 <= w < kept.len() && kept[w] == q[k];
                    assert(out[w] == kept[w]);
                } else {
                    let w = choose|w: int| 0 <= w < kept.len() && same_path(kept[w], q[k]);
                    assert(out[w] == kept[w]);
                }
            } else if among(kept, x) {
                let w = choose|w: int| 0 <= w < kept.len() && same_path(kept[w], x);
                assert(out[w] == kept[w]);
            } else {
                assert(out[kept.len() as int] == x);
            }
        }
    }
}

} // verus!
