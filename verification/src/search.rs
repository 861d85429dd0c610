//! Query matching and the ordering of live folder listings.

use vstd::prelude::*;

use crate::order::{arranged, in_order, is_permutation, stably_sorted, arrange, stable_order, Precedence};
use crate::paths::{lowercase, to_lowercase};
use crate::text::{is_space, chars_of, compare_text, contains, contains_text, same_text, split_words, string_from, text_order, text_order_total, words};

verus! {

/// How loose a query is.
#[derive(Clone, Copy, PartialEq, Eq, Debug)]
pub enum MatchMode {
    /// Every letter of a word appears in the name, in order, gaps allowed.
    Fuzzy,
    /// Each word appears contiguously in the name.
    Substring,
    /// Each word is the whole name.
    Exact,
}

/// `word`'s characters appear in `name` in order, gaps allowed.
pub open spec fn is_subsequence(word: Seq<char>, name: Seq<char>) -> bool
    decreases name.len(),
{
    if word.len() == 0 {
        true
    } else if name.len() == 0 {
        false
    } else if word[0] == name[0] {
        is_subsequence(word.drop_first(), name.drop_first())
    } else {
        is_subsequence(word, name.drop_first())
    }
}

/// One (already lowercased) word against one (already lowercased) name.
pub open spec fn word_matches(name: Seq<char>, word: Seq<char>, mode: MatchMode) -> bool {
    match mode {
        MatchMode::Exact => name == word,
        MatchMode::Substring => contains_text(name, word),
        MatchMode::Fuzzy => is_subsequence(word, name),
    }
}

/// Every whitespace-separated word of `query` matches `name`, both taken in
/// Unicode lowercase.  An empty query matches every name.
pub open spec fn matches_query(name: Seq<char>, query: Seq<char>, mode: MatchMode) -> bool {
    forall|k: int|
        0 <= k < words(query).len() ==> word_matches(
            lowercase(name),
            lowercase(#[trigger] words(query)[k]),
            mode,
        )
}

proof fn lemma_subsequence_skip(word: Seq<char>, name: Seq<char>, i: int, j: int)
    requires
        0 <= i < word.len(),
        0 <= j < name.len(),
    ensures
        word[i] == name[j] ==> is_subsequence(word.skip(i), name.skip(j)) == is_subsequence(
            word.skip(i + 1),
            name.skip(j + 1),
        ),
        word[i] != name[j] ==> is_subsequence(word.skip(i), name.skip(j)) == is_subsequence(
            word.skip(i),
            name.skip(j + 1),
        ),
{
    assert(word.skip(i).drop_first() == word.skip(i + 1));
    assert(name.skip(j).drop_first() == name.skip(j + 1));
}

/// `f` places the characters of `word` at increasing positions of `name`.
pub open spec fn is_embedding(word: Seq<char>, name: Seq<char>, f: Seq<int>) -> bool {
    &&& f.len() == word.len()
    &&& forall|i: int| 0 <= i < f.len() ==> 0 <= #[trigger] f[i] < name.len() && name[f[i]] == word[i]
    &&& forall|i: int, j: int| 0 <= i < j < f.len() ==> f[i] < f[j]
}

proof fn lemma_embedding_of_subsequence(word: Seq<char>, name: Seq<char>) -> (f: Seq<int>)
    requires
        is_subsequence(word, name),
    ensures
        is_embedding(word, name, f),
    decreases name.len(),
{
    if word.len() == 0 {
        Seq::empty()
    } else if word[0] == name[0] {
        let g = lemma_embedding_of_subsequence(word.drop_first(), name.drop_first());
        let f = seq![0int] + g.map_values(|x: int| x + 1);
        assert forall|i: int| 0 <= i < f.len() implies 0 <= #[trigger] f[i] < name.len() && name[f[i]]
            == word[i] by {
            if i > 0 {
                assert(f[i] == g[i - 1] + 1);
                assert(name.drop_first()[g[i - 1]] == word.drop_first()[i - 1]);
            }
        }
        assert forall|i: int, j: int| 0 <= i < j < f.len() implies f[i] < f[j] by {
            if i > 0 {
                assert(f[i] == g[i - 1] + 1);
            }
            assert(f[j] == g[j - 1] + 1);
        }
        f
    } else {
        let g = lemma_embedding_of_subsequence(word, name.drop_first());
        let f = g.map_values(|x: int| x + 1);
        assert forall|i: int| 0 <= i < f.len() implies 0 <= #[trigger] f[i] < name.len() && name[f[i]]
            == word[i] by {
            assert(name.drop_first()[g[i]] == word[i]);
        }
        f
    }
}

proof fn lemma_subsequence_of_embedding(word: Seq<char>, name: Seq<char>, f: Seq<int>)
    requires
        is_embedding(word, name, f),
    ensures
        is_subsequence(word, name),
    decreases name.len(),
{
    if word.len() > 0 {
        assert(0 <= f[0] < name.len());
        if word[0] == name[0] {
            let g = f.drop_first().map_values(|x: int| x - 1);
            assert forall|i: int| 0 <= i < g.len() implies 0 <= #[trigger] g[i] < name.drop_first().len()
                && name.drop_first()[g[i]] == word.drop_first()[i] by {
                assert(f[0] < f[i + 1]);
                assert(name[f[i + 1]] == word[i + 1]);
            }
            assert forall|i: int, j: int| 0 <= i < j < g.len() implies g[i] < g[j] by {
                assert(f[i + 1] < f[j + 1]);
            }
            lemma_subsequence_of_embedding(word.drop_first(), name.drop_first(), g);
        } else {
            assert(f[0] != 0);
            let g = f.map_values(|x: int| x - 1);
            assert forall|i: int| 0 <= i < g.len() implies 0 <= #[trigger] g[i] < name.drop_first().len()
                && name.drop_first()[g[i]] == word[i] by {
                if i > 0 {
                    assert(f[0] < f[i]);
                }
            }
            assert forall|i: int, j: int| 0 <= i < j < g.len() implies g[i] < g[j] by {
                assert(f[i] < f[j]);
            }
            lemma_subsequence_of_embedding(word, name.drop_first(), g);
        }
    }
}

/// A fuzzy word matches a name exactly when the word's characters can be
/// found in the name at increasing positions.
pub proof fn fuzzy_is_embedding(word: Seq<char>, name: Seq<char>)
    ensures
        is_subsequence(word, name) <==> exists|f: Seq<int>| is_embedding(word, name, f),
{
    if is_subsequence(word, name) {
        let f = lemma_embedding_of_subsequence(word, name);
    }
    if exists|f: Seq<int>| is_embedding(word, name, f) {
        let f = choose|f: Seq<int>| is_embedding(word, name, f);
        lemma_subsequence_of_embedding(word, name, f);
    }
}

/// Greedy in-order search of `word`'s characters in `name`.
pub fn fuzzy_contains(name: &[char], word: &[char]) -> (r: bool)
    ensures
        r == is_subsequence(word@, name@),
{
    let mut i: usize = 0;
    let mut j: usize = 0;
    assert(word@.skip(0) == word@);
    assert(name@.skip(0) == name@);
    while i < word.len()
        invariant
            i <= word@.len(),
            j <= name@.len(),
            is_subsequence(word@, name@) == is_subsequence(word@.skip(i as int), name@.skip(j as int)),
        decreases word.len() - i, name.len() - j,
    {
        if j == name.len() {
            assert(name@.skip(j as int).len() == 0);
            return false;
        }
        proof {
            lemma_subsequence_skip(word@, name@, i as int, j as int);
        }
        if word[i] == name[j] {
            i = i + 1;
        }
        j = j + 1;
    }
    assert(word@.skip(i as int).len() == 0);
    true
}

/// Whether one lowercased word matches one lowercased name.
pub fn word_match(name: &[char], word: &[char], mode: MatchMode) -> (r: bool)
    ensures
        r == word_matches(name@, word@, mode),
{
    match mode {
        MatchMode::Exact => same_text(name, word),
        MatchMode::Substring => contains(name, word),
        MatchMode::Fuzzy => fuzzy_contains(name, word),
    }
}

/// Whether `name` answers `query` under `mode`: every whitespace-separated
/// word of the query, lowercased, matches the lowercased name.
pub fn name_matches(name: &str, query: &str, mode: MatchMode) -> (r: bool)
    ensures
        r == matches_query(name@, query@, mode),
{
    let lowered = to_lowercase(name);
    let name_chars = chars_of(lowered.as_str());
    let query_chars = chars_of(query);
    let parts = split_words(&query_chars);
    let n = parts.len();
    for k in 0..n
        invariant
            n == parts@.len(),
            n == words(query@).len(),
            name_chars@ == lowercase(name@),
            forall|m: int| 0 <= m < n ==> #[trigger] parts@[m]@ == words(query@)[m],
            forall|m: int|
                0 <= m < k ==> word_matches(
                    lowercase(name@),
                    lowercase(#[trigger] words(query@)[m]),
                    mode,
                ),
    {
        let word = string_from(parts[k].as_slice());
        let word_lower = to_lowercase(word.as_str());
        let word_chars = chars_of(word_lower.as_str());
        assert(parts@[k as int]@ == words(query@)[k as int]);
        if !word_match(&name_chars, &word_chars, mode) {
            return false;
        }
    }
    true
}

// ---------------------------------------------------------------------
// Live folder listings
// ---------------------------------------------------------------------

/// The orders the surface offers.
#[derive(Clone, Copy, PartialEq, Eq, Debug)]
pub enum SortMode {
    Score,
    Name,
    NameDesc,
    Newest,
    Oldest,
    Largest,
    Smallest,
}

/// Which kinds of entries a listing keeps.
#[derive(Clone, Copy, PartialEq, Eq, Debug)]
pub enum ScopeMode {
    All,
    Files,
    Folders,
}

/// One entry of a folder read straight from disk.
pub struct LiveEntry {
    pub name: String,
    pub path: String,
    pub is_dir: bool,
    pub size: u64,
    /// Unix seconds, `0` when unknown.
    pub mtime: i64,
}

/// What the ordering of a live listing reads of an entry.
pub struct LiveKey {
    pub is_dir: bool,
    /// The Unicode lowercase of the entry's name.
    pub name: Vec<char>,
    pub size: u64,
    pub mtime: i64,
}

/// The comparator of a live listing: folders first when asked, then the
/// chosen sort, ties broken by lowercased name.
pub struct LiveRule {
    pub sort: SortMode,
    pub folders_first: bool,
}

/// Three-way comparison of two integers: `-1`, `0` or `1`.
pub open spec fn three_way(a: int, b: int) -> int {
    if a < b {
        -1
    } else if a > b {
        1
    } else {
        0
    }
}

/// Three-way order of two live keys under `rule`.
pub open spec fn live_order(rule: LiveRule, a: LiveKey, b: LiveKey) -> int {
    let folders = if a.is_dir == b.is_dir {
        0
    } else if a.is_dir {
        -1
    } else {
        1
    };
    let name = text_order(a.name@, b.name@);
    if rule.folders_first && folders != 0 {
        folders
    } else {
        match rule.sort {
            SortMode::NameDesc => -name,
            SortMode::Newest => if a.mtime != b.mtime {
                three_way(b.mtime as int, a.mtime as int)
            } else {
                name
            },
            SortMode::Oldest => if a.mtime != b.mtime {
                three_way(a.mtime as int, b.mtime as int)
            } else {
                name
            },
            SortMode::Largest => if a.size != b.size {
                three_way(b.size as int, a.size as int)
            } else {
                name
            },
            SortMode::Smallest => if a.size != b.size {
                three_way(a.size as int, b.size as int)
            } else {
                name
            },
            _ => name,
        }
    }
}

proof fn lemma_text_orders(a: Seq<char>, b: Seq<char>, c: Seq<char>)
    ensures
        -1 <= text_order(a, b) <= 1,
        -1 <= text_order(b, c) <= 1,
        -1 <= text_order(a, c) <= 1,
        text_order(a, b) == -text_order(b, a),
        text_order(b, c) == -text_order(c, b),
        text_order(a, c) == -text_order(c, a),
        text_order(a, b) <= 0 && text_order(b, c) <= 0 ==> text_order(a, c) <= 0,
        text_order(c, b) <= 0 && text_order(b, a) <= 0 ==> text_order(c, a) <= 0,
        text_order(a, b) == 0 && text_order(b, c) == 0 ==> text_order(a, c) == 0,
{
    text_order_total(a, b, c);
    text_order_total(b, c, a);
    text_order_total(a, c, b);
    text_order_total(c, b, a);
    text_order_total(b, a, c);
    text_order_total(c, a, b);
}

impl Precedence<LiveKey> for LiveRule {
    open spec fn precedes(self, a: LiveKey, b: LiveKey) -> bool {
        live_order(self, a, b) <= 0
    }

    proof fn precedes_total(self, a: LiveKey, b: LiveKey) {
        lemma_text_orders(a.name@, b.name@, b.name@);
    }

    proof fn precedes_transitive(self, a: LiveKey, b: LiveKey, c: LiveKey) {
        lemma_text_orders(a.name@, b.name@, c.name@);
    }

    fn precedes_exec(&self, a: &LiveKey, b: &LiveKey) -> (r: bool) {
        let folders: i8 = if a.is_dir == b.is_dir {
            0
        } else if a.is_dir {
            -1
        } else {
            1
        };
        if self.folders_first && folders != 0 {
            return folders <= 0;
        }
        let name = compare_text(&a.name, &b.name);
        proof {
            text_order_total(a.name@, b.name@, b.name@);
        }
        let order: i8 = match self.sort {
            SortMode::NameDesc => -name,
            SortMode::Newest => if a.mtime != b.mtime {
                if b.mtime < a.mtime {
                    -1
                } else {
                    1
                }
            } else {
                name
            },
            SortMode::Oldest => if a.mtime != b.mtime {
                if a.mtime < b.mtime {
                    -1
                } else {
                    1
                }
            } else {
                name
            },
            SortMode::Largest => if a.size != b.size {
                if b.size < a.size {
                    -1
                } else {
                    1
                }
            } else {
                name
            },
            SortMode::Smallest => if a.size != b.size {
                if a.size < b.size {
                    -1
                } else {
                    1
                }
            } else {
                name
            },
            _ => name,
        };
        proof {
            text_order_total(a.name@, b.name@, b.name@);
        }
        order <= 0
    }
}

/// Two entries listed in this order respect the chosen sort: with folders
/// first, a folder never follows a file; between entries of one kind (or
/// when kinds are mixed freely) the smaller comes first under Smallest,
/// the larger under Largest, the older under Oldest, the newer under
/// Newest, and the name earlier in the alphabet (case folded) under Name.
pub open spec fn listed_in_sort_order(sort: SortMode, folders_first: bool, a: LiveEntry, b: LiveEntry) -> bool {
    &&& (folders_first && a.is_dir != b.is_dir ==> a.is_dir)
    &&& (!folders_first || a.is_dir == b.is_dir) ==> {
        &&& (sort == SortMode::Smallest ==> a.size <= b.size)
        &&& (sort == SortMode::Largest ==> a.size >= b.size)
        &&& (sort == SortMode::Oldest ==> a.mtime <= b.mtime)
        &&& (sort == SortMode::Newest ==> a.mtime >= b.mtime)
        &&& (sort == SortMode::Name ==> text_order(lowercase(a.name@), lowercase(b.name@)) <= 0)
        &&& (sort == SortMode::NameDesc ==> text_order(lowercase(a.name@), lowercase(b.name@)) >= 0)
    }
}

/// A live listing ordered by a stable sort under the listing's rule lists
/// every earlier entry before every later one in the chosen sort order
/// (see `listed_in_sort_order`).
pub proof fn live_listing_follows_sort(
    entries: Seq<LiveEntry>,
    sort: SortMode,
    folders_first: bool,
    keys: Seq<LiveKey>,
    order: Seq<usize>,
    i: int,
    j: int,
)
    requires
        live_keys_of(entries, keys),
        is_permutation(order, entries.len()),
        stably_sorted(LiveRule { sort, folders_first }, keys, order),
        0 <= i < j < order.len(),
    ensures
        listed_in_sort_order(sort, folders_first, arranged(entries, order)[i], arranged(entries, order)[j]),
{
    let rule = LiveRule { sort, folders_first };
    assert(in_order(rule, keys, order[i], order[j]));
    let x = order[i] as int;
    let y = order[j] as int;
    assert(0 <= x < entries.len());
    assert(0 <= y < entries.len());
    let ka = keys[x];
    let kb = keys[y];
    assert(rule.precedes(ka, kb));
    assert(live_order(rule, ka, kb) <= 0);
    lemma_text_orders(ka.name@, kb.name@, kb.name@);
    assert(arranged(entries, order)[i] == entries[x]);
    assert(arranged(entries, order)[j] == entries[y]);
}

/// The ordering key of a live entry.
pub fn live_key(e: &LiveEntry) -> (k: LiveKey)
    ensures
        k.is_dir == e.is_dir,
        k.name@ == lowercase(e.name@),
        k.size == e.size,
        k.mtime == e.mtime,
{
    let lowered = to_lowercase(e.name.as_str());
    LiveKey { is_dir: e.is_dir, name: chars_of(lowered.as_str()), size: e.size, mtime: e.mtime }
}

/// The keys a live listing is ordered by, entry by entry.
pub open spec fn live_keys_of(entries: Seq<LiveEntry>, keys: Seq<LiveKey>) -> bool {
    &&& keys.len() == entries.len()
    &&& forall|k: int|
        0 <= k < keys.len() ==> {
            &&& (#[trigger] keys[k]).is_dir == entries[k].is_dir
            &&& keys[k].name@ == lowercase(entries[k].name@)
            &&& keys[k].size == entries[k].size
            &&& keys[k].mtime == entries[k].mtime
        }
}

/// Orders a live listing (folders first when asked, then the chosen sort,
/// ties by lowercased name, stable) and keeps the first `limit` entries.
pub fn order_live(entries: Vec<LiveEntry>, sort: SortMode, folders_first: bool, limit: usize) -> (out:
    Vec<LiveEntry>)
    ensures
        exists|keys: Seq<LiveKey>, order: Seq<usize>|
            {
                &&& live_keys_of(entries@, keys)
                &&& is_permutation(order, entries@.len())
                &&& stably_sorted(LiveRule { sort, folders_first }, keys, order)
                &&& out@ == arranged(entries@, order).take(
                    if limit < entries@.len() {
                        limit as int
                    } else {
                        entries@.len() as int
                    },
                )
            },
        forall|i: int, j: int|
            0 <= i < j < out@.len() ==> #[trigger] listed_in_sort_order(sort, folders_first, out@[i], out@[j]),
{
    let rule = LiveRule { sort, folders_first };
    let mut keys: Vec<LiveKey> = Vec::new();
    let n = entries.len();
    for k in 0..n
        invariant
            n == entries@.len(),
            keys@.len() == k,
            forall|m: int|
                0 <= m < k ==> {
                    &&& (#[trigger] keys@[m]).is_dir == entries@[m].is_dir
                    &&& keys@[m].name@ == lowercase(entries@[m].name@)
                    &&& keys@[m].size == entries@[m].size
                    &&& keys@[m].mtime == entries@[m].mtime
                },
    {
        keys.push(live_key(&entries[k]));
    }
    let order = stable_order(&rule, &keys);
    let ghost input = entries@;
    let mut out = arrange(entries, &order);
    let keep = if limit < n {
        limit
    } else {
        n
    };
    out.truncate(keep);
    assert(live_keys_of(input, keys@));
    assert forall|i: int, j: int| 0 <= i < j < out@.len() implies #[trigger] listed_in_sort_order(
        sort,
        folders_first,
        out@[i],
        out@[j],
    ) by {
        live_listing_follows_sort(input, sort, folders_first, keys@, order@, i, j);
    }
    out
}

/// Folder and file counts of a listing.
pub open spec fn count_folders(is_dir: Seq<bool>) -> nat
    decreases is_dir.len(),
{
    if is_dir.len() == 0 {
        0
    } else {
        count_folders(is_dir.drop_last()) + if is_dir.last() {
            1nat
        } else {
            0nat
        }
    }
}

/// `(folders, files)` of a listing given which entries are folders.
pub fn count_kinds(is_dir: &Vec<bool>) -> (r: (usize, usize))
    ensures
        r.0 == count_folders(is_dir@),
        r.0 + r.1 == is_dir@.len(),
{
    let mut folders: usize = 0;
    let mut files: usize = 0;
    let n = is_dir.len();
    for k in 0..n
        invariant
            n == is_dir@.len(),
            folders == count_folders(is_dir@.take(k as int)),
            folders + files == k,
    {
        assert(is_dir@.take(k + 1).drop_last() == is_dir@.take(k as int));
        if is_dir[k] {
            folders = folders + 1;
        } else {
            files = files + 1;
        }
    }
    assert(is_dir@.take(n as int) == is_dir@);
    (folders, files)
}

/// Whether a live entry is skipped as hidden before any other test.
pub fn hidden_skipped(name: &str, show_hidden: bool) -> (r: bool)
    ensures
        r == (!show_hidden && name@.len() > 0 && name@[0] == '.'),
{
    if show_hidden {
        return false;
    }
    let chars = chars_of(name);
    chars.len() > 0 && chars[0] == '.'
}

/// Whether a live entry stays in the listing: not ignored, of the scope's
/// kind, of the chosen file class, and answering the query.
pub fn admits(
    name: &str,
    is_dir: bool,
    ignored: bool,
    scope: ScopeMode,
    class_ok: bool,
    query: &str,
    mode: MatchMode,
) -> (r: bool)
    ensures
        r == (!ignored && match scope {
            ScopeMode::All => true,
            ScopeMode::Files => !is_dir,
            ScopeMode::Folders => is_dir,
        } && class_ok && matches_query(name@, query@, mode)),
{
    if ignored {
        return false;
    }
    let in_scope = match scope {
        ScopeMode::All => true,
        ScopeMode::Files => !is_dir,
        ScopeMode::Folders => is_dir,
    };
    if !in_scope || !class_ok {
        return false;
    }
    name_matches(name, query, mode)
}

/// Whether an ordering reads sizes or times, so that a live listing must
/// look at each entry's metadata: the newest, oldest, largest and
/// smallest orders.
pub fn sort_reads_metadata(sort: SortMode) -> (r: bool)
    ensures
        r == (sort == SortMode::Newest || sort == SortMode::Oldest || sort == SortMode::Largest
            || sort == SortMode::Smallest),
{
    match sort {
        SortMode::Newest | SortMode::Oldest | SortMode::Largest | SortMode::Smallest => true,
        _ => false,
    }
}

proof fn lemma_blank_has_no_words(s: Seq<char>)
    requires
        forall|k: int| 0 <= k < s.len() ==> is_space(#[trigger] s[k]),
    ensures
        words(s).len() == 0,
    decreases s.len(),
{
    if s.len() > 0 {
        assert(is_space(s[0]));
        assert forall|k: int| 0 <= k < s.drop_first().len() implies is_space(
            #[trigger] s.drop_first()[k],
        ) by {
            assert(s.drop_first()[k] == s[k + 1]);
        }
        lemma_blank_has_no_words(s.drop_first());
    }
}

/// An empty query, or one of spaces only, lists every name, in every
/// matching mode.
pub proof fn blank_query_matches_everything(name: Seq<char>, query: Seq<char>, mode: MatchMode)
    requires
        forall|k: int| 0 <= k < query.len() ==> is_space(#[trigger] query[k]),
    ensures
        matches_query(name, query, mode),
{
    lemma_blank_has_no_words(query);
}

} // verus!
