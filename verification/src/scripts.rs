//! User scripts in the row menu: how each is labelled and named, which
//! files count as scripts, and what a script is told about the selection.

use vstd::prelude::*;

use crate::paths::{file_stem_of, parent_of, path_file_stem, path_parent};
use crate::text::{chars_of, decimal, owned, push_decimal, push_text, string_from};

verus! {

/// A script's menu label: its file stem with `_` and `-` shown as spaces.
pub open spec fn script_label_of(path: Seq<char>) -> Seq<char> {
    let stem = match path_file_stem(path) {
        Some(s) => s,
        None => Seq::empty(),
    };
    stem.map_values(|c: char| if c == '_' || c == '-' {
        ' '
    } else {
        c
    })
}

/// A script's menu label (see `script_label_of`).
pub fn script_label(path: &str) -> (r: String)
    ensures
        r@ == script_label_of(path@),
{
    let stem = match file_stem_of(path) {
        Some(s) => s,
        None => String::new(),
    };
    let c = chars_of(stem.as_str());
    let mut out: Vec<char> = Vec::new();
    let mut k: usize = 0;
    while k < c.len()
        invariant
            k <= c@.len(),
            out@ == c@.take(k as int).map_values(|x: char| if x == '_' || x == '-' {
                ' '
            } else {
                x
            }),
        decreases c@.len() - k,
    {
        let x = c[k];
        out.push(if x == '_' || x == '-' { ' ' } else { x });
        assert(c@.take(k + 1) == c@.take(k as int).push(x));
        k = k + 1;
    }
    assert(c@.take(c@.len() as int) == c@);
    string_from(&out)
}

/// Whether a file's permission bits let someone run it: any of the three
/// execute bits.
pub fn executable_mode(mode: u32) -> (r: bool)
    ensures
        r == (mode & 0o111u32 != 0),
{
    mode & 0o111u32 != 0
}

/// The window action that runs the `id`-th script.
pub fn script_action(id: u64) -> (r: String)
    ensures
        r@ == "win.external-"@ + decimal(id as nat),
{
    let mut s = owned("win.external-");
    push_decimal(&mut s, id);
    s
}

/// What a script learns about the selected path: the folder it is in
/// (empty for a root) and the selection list, one path per line.
pub fn script_context(path: &str) -> (r: (String, String))
    ensures
        r.0@ == match path_parent(path@) {
            Some(p) => p,
            None => Seq::empty(),
        },
        r.1@ == path@ + "\n"@,
{
    let current = match parent_of(path) {
        Some(p) => p,
        None => String::new(),
    };
    let mut selected = owned(path);
    push_text(&mut selected, "\n");
    (current, selected)
}

} // verus!
