//! Supplementary text columns (Kind and Location) and their sort, and the
//! saved column layout of the details view.

use vstd::prelude::*;

use crate::order::{arrange, arranged, is_permutation, stable_order, stably_sorted, Precedence};
use crate::paths::{extension_of, parent_of, path_extension, path_parent, to_uppercase, uppercase};
use crate::row::RowData;
use crate::text::{chars_of, compare_text, owned, push_text, text_order, text_order_total};

verus! {

/// What the Kind or Location column shows for an item.
///
/// Location: the parent folder of `path` (empty when it has none).  Kind:
/// `"Folder"` for folders, else the upper-cased extension of `name` and
/// `" file"`, or `"File"` when the name has no extension.
pub open spec fn text_key_of(name: Seq<char>, path: Seq<char>, is_dir: bool, location: bool) -> Seq<
    char,
> {
    if location {
        match path_parent(path) {
            Some(p) => p,
            None => Seq::empty(),
        }
    } else if is_dir {
        "Folder"@
    } else {
        match path_extension(name) {
            Some(e) => if e.len() > 0 {
                uppercase(e) + " file"@
            } else {
                "File"@
            },
            None => "File"@,
        }
    }
}

/// The Kind or Location text of an item (see `text_key_of`).
pub fn text_key(name: &str, path: &str, is_dir: bool, location: bool) -> (r: String)
    ensures
        r@ == text_key_of(name@, path@, is_dir, location),
{
    if location {
        match parent_of(path) {
            Some(p) => p,
            None => String::new(),
        }
    } else if is_dir {
        owned("Folder")
    } else {
        match extension_of(name) {
            Some(e) => {
                if e.as_str().is_empty() {
                    owned("File")
                } else {
                    let mut r = to_uppercase(e.as_str());
                    push_text(&mut r, " file");
                    r
                }
            },
            None => owned("File"),
        }
    }
}

/// The Kind or Location text of a row.
pub fn text_value(data: &RowData, location: bool) -> (r: String)
    ensures
        r@ == text_key_of(data@.name, data@.path, data@.is_dir, location),
{
    text_key(data.name_str(), data.path_str(), data.is_dir(), location)
}

/// The key a text column sorts by: files after folders when folders come
/// first, then the column text, then the full path.
pub struct TextKey {
    pub later: bool,
    pub value: Vec<char>,
    pub path: Vec<char>,
}

/// The order of a text column: ascending or descending by text; the
/// grouping and the path tie-break always ascend.
pub struct TextRule {
    pub descending: bool,
}

/// Three-way order of two text keys under `rule`.
pub open spec fn text_key_order(rule: TextRule, a: TextKey, b: TextKey) -> int {
    let value = if rule.descending {
        -text_order(a.value@, b.value@)
    } else {
        text_order(a.value@, b.value@)
    };
    if a.later != b.later {
        if a.later {
            1
        } else {
            -1
        }
    } else if value != 0 {
        value
    } else {
        text_order(a.path@, b.path@)
    }
}

proof fn lemma_orders3(a: Seq<char>, b: Seq<char>, c: Seq<char>)
    ensures
        -1 <= text_order(a, b) <= 1,
        -1 <= text_order(b, c) <= 1,
        -1 <= text_order(a, c) <= 1,
        text_order(a, b) == -text_order(b, a),
        text_order(b, c) == -text_order(c, b),
        text_order(a, c) == -text_order(c, a),
        text_order(a, b) <= 0 && text_order(b, c) <= 0 ==> text_order(a, c) <= 0,
        text_order(c, b) <= 0 && text_order(b, a) <= 0 ==> text_order(c, a) <= 0,
        text_order(a, b) == 0 && text_order(b, c) == 0 ==> text_order(a, c) == 0,
        text_order(a, b) == 0 ==> a == b,
        text_order(b, c) == 0 ==> b == c,
        text_order(a, c) == 0 ==> a == c,
{
    text_order_total(a, b, c);
    text_order_total(b, c, a);
    text_order_total(a, c, b);
    text_order_total(c, b, a);
    text_order_total(b, a, c);
    text_order_total(c, a, b);
}

impl Precedence<TextKey> for TextRule {
    open spec fn precedes(self, a: TextKey, b: TextKey) -> bool {
        text_key_order(self, a, b) <= 0
    }

    proof fn precedes_total(self, a: TextKey, b: TextKey) {
        lemma_orders3(a.value@, b.value@, b.value@);
        lemma_orders3(a.path@, b.path@, b.path@);
    }

    proof fn precedes_transitive(self, a: TextKey, b: TextKey, c: TextKey) {
        lemma_orders3(a.value@, b.value@, c.value@);
        lemma_orders3(a.path@, b.path@, c.path@);
    }

    fn precedes_exec(&self, a: &TextKey, b: &TextKey) -> (r: bool) {
        if a.later != b.later {
            return b.later;
        }
        let v = compare_text(&a.value, &b.value);
        proof {
            lemma_orders3(a.value@, b.value@, b.value@);
        }
        let value: i8 = if self.descending {
            -v
        } else {
            v
        };
        if value != 0 {
            return value < 0;
        }
        let p = compare_text(&a.path, &b.path);
        p <= 0
    }
}

/// The sort key of a row in a text column: whether it is a file while
/// folders come first, its column text, its path.
pub fn text_sort_key(data: &RowData, location: bool, folders_first: bool) -> (k: TextKey)
    ensures
        k.later == (folders_first && !data@.is_dir),
        k.value@ == text_key_of(data@.name, data@.path, data@.is_dir, location),
        k.path@ == data@.path,
{
    let value = text_value(data, location);
    TextKey {
        later: folders_first && !data.is_dir(),
        value: chars_of(value.as_str()),
        path: chars_of(data.path_str()),
    }
}

/// Sorts `items` by their text-column keys (`keys[i]` belongs to
/// `items[i]`), stably, ascending or descending by text.
pub fn sort_text<T>(items: Vec<T>, keys: &Vec<TextKey>, descending: bool) -> (out: Vec<T>)
    requires
        keys@.len() == items@.len(),
    ensures
        exists|order: Seq<usize>|
            {
                &&& is_permutation(order, items@.len())
                &&& stably_sorted(TextRule { descending }, keys@, order)
                &&& out@ == arranged(items@, order)
            },
{
    let rule = TextRule { descending };
    let order = stable_order(&rule, keys);
    arrange(items, &order)
}

} // verus!
