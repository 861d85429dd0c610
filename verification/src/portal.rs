//! The file-chooser portal backend: how a portal request becomes the
//! command line of the picker, and how the picker's answer is read.

use vstd::prelude::*;

use crate::paths::{file_name_of, parent_of, path_file_name, path_parent};
use crate::text::{begins_with, chars_of, opt_text, owned, push_char, push_text, starts_with, string_from};

verus! {

/// What the portal asks for.
#[derive(Clone, Copy, PartialEq, Eq, Structural, Debug)]
pub enum PickAction {
    Open,
    Save,
    SelectFolder,
}

/// The bytes of `bytes` before the first NUL.
pub open spec fn before_nul(bytes: Seq<u8>) -> Seq<u8> {
    bytes.take(first_nul(bytes, 0))
}

/// The first position at or after `i` holding a NUL byte, or the length.
pub open spec fn first_nul(bytes: Seq<u8>, i: int) -> int
    decreases bytes.len() - i,
{
    if i < 0 || i >= bytes.len() {
        bytes.len() as int
    } else if bytes[i] == 0 {
        i
    } else {
        first_nul(bytes, i + 1)
    }
}

/// A byte option as the portal hands it: everything before the first NUL.
pub fn until_nul(bytes: &[u8]) -> (r: Vec<u8>)
    ensures
        r@ == before_nul(bytes@),
{
    let mut out: Vec<u8> = Vec::new();
    let mut k: usize = 0;
    while k < bytes.len() && bytes[k] != 0
        invariant
            k <= bytes@.len(),
            out@ == bytes@.take(k as int),
            first_nul(bytes@, 0) == first_nul(bytes@, k as int),
        decreases bytes@.len() - k,
    {
        out.push(bytes[k]);
        proof {
            assert(bytes@.take(k + 1) == bytes@.take(k as int).push(bytes@[k as int]));
        }
        k = k + 1;
    }
    proof {
        assert(first_nul(bytes@, k as int) == k);
    }
    out
}

/// The non-empty NUL-separated chunks of `bytes` from position `i` on.
pub open spec fn chunks_from(bytes: Seq<u8>, i: int) -> Seq<Seq<u8>>
    decreases bytes.len() - i,
{
    if i < 0 || i >= bytes.len() {
        Seq::empty()
    } else {
        let e = first_nul(bytes, i);
        let rest = if e < bytes.len() && e >= i {
            chunks_from(bytes, e + 1)
        } else {
            Seq::empty()
        };
        if e > i {
            seq![bytes.subrange(i, e)] + rest
        } else {
            rest
        }
    }
}

proof fn lemma_first_nul_bounds(bytes: Seq<u8>, i: int)
    requires
        0 <= i <= bytes.len(),
    ensures
        i <= first_nul(bytes, i) <= bytes.len(),
    decreases bytes.len() - i,
{
    if i < bytes.len() && bytes[i] != 0 {
        lemma_first_nul_bounds(bytes, i + 1);
    }
}

/// The paths the picker printed: its output cut at NUL bytes, empty pieces
/// left out (see `chunks_from`).
pub fn nul_chunks(bytes: &[u8]) -> (r: Vec<Vec<u8>>)
    ensures
        r@.map_values(|c: Vec<u8>| c@) == chunks_from(bytes@, 0),
{
    let n = bytes.len();
    let mut out: Vec<Vec<u8>> = Vec::new();
    let mut i: usize = 0;
    while i < n
        invariant
            n == bytes@.len(),
            i <= n,
            chunks_from(bytes@, 0) == out@.map_values(|c: Vec<u8>| c@) + chunks_from(bytes@, i as int),
        decreases n - i,
    {
        let mut e = i;
        let mut chunk: Vec<u8> = Vec::new();
        while e < n && bytes[e] != 0
            invariant
                i <= e <= n,
                n == bytes@.len(),
                first_nul(bytes@, i as int) == first_nul(bytes@, e as int),
                chunk@ == bytes@.subrange(i as int, e as int),
            decreases n - e,
        {
            chunk.push(bytes[e]);
            e = e + 1;
        }
        proof {
            assert(first_nul(bytes@, e as int) == e);
        }
        let ghost before = out@.map_values(|c: Vec<u8>| c@);
        let ghost rest = if e < n {
            chunks_from(bytes@, e + 1)
        } else {
            Seq::<Seq<u8>>::empty()
        };
        if e > i {
            out.push(chunk);
            proof {
                assert(out@.map_values(|c: Vec<u8>| c@) == before.push(bytes@.subrange(i as int, e as int)));
                assert(chunks_from(bytes@, i as int) == seq![bytes@.subrange(i as int, e as int)] + rest);
                assert(before + (seq![bytes@.subrange(i as int, e as int)] + rest) == before.push(
                    bytes@.subrange(i as int, e as int),
                ) + rest);
            }
        } else {
            assert(chunks_from(bytes@, i as int) == rest);
        }
        if e >= n {
            proof {
                assert(rest == Seq::<Seq<u8>>::empty());
                assert(chunks_from(bytes@, n as int) == Seq::<Seq<u8>>::empty());
            }
            i = n;
        } else {
            i = e + 1;
        }
    }
    proof {
        assert(chunks_from(bytes@, i as int) == Seq::<Seq<u8>>::empty());
        assert(out@.map_values(|c: Vec<u8>| c@) + Seq::<Seq<u8>>::empty() == out@.map_values(
            |c: Vec<u8>| c@,
        ));
    }
    out
}

/// The picker's mode: a save of several files picks a folder.
pub open spec fn mode_of(action: PickAction, several: bool) -> Seq<char> {
    if several {
        "folder"@
    } else {
        match action {
            PickAction::Save => "save"@,
            PickAction::SelectFolder => "folder"@,
            PickAction::Open => "file"@,
        }
    }
}

/// The picker's window title: the requested one, or `"Megaman"`.
pub open spec fn title_of(title: Seq<char>) -> Seq<char> {
    if title.len() == 0 {
        "Megaman"@
    } else {
        title
    }
}

/// The picker's accept button: the requested label, else Save or Select.
pub open spec fn accept_of(label: Option<Seq<char>>, action: PickAction) -> Seq<char> {
    match label {
        Some(l) => l,
        None => if action == PickAction::Save {
            "Save"@
        } else {
            "Select"@
        },
    }
}

/// The extension tokens of the first filter's glob rules: each `*.ext`
/// glob (rule kind 0) becomes `.ext`; other rules give nothing.
pub open spec fn filter_tokens(rules: Seq<(u32, Seq<char>)>) -> Seq<Seq<char>>
    decreases rules.len(),
{
    if rules.len() == 0 {
        Seq::empty()
    } else {
        let rest = filter_tokens(rules.drop_last());
        let (kind, glob) = rules.last();
        if kind == 0 && starts_with(glob, "*."@) {
            rest.push(seq!['.'] + glob.skip(2))
        } else {
            rest
        }
    }
}

/// The extension tokens of glob rules (see `filter_tokens`).
pub fn filter_extensions(rules: &Vec<(u32, String)>) -> (r: Vec<String>)
    ensures
        r@.map_values(|t: String| t@) == filter_tokens(rules@.map_values(|x: (u32, String)| (x.0, x.1@))),
{
    let ghost views = rules@.map_values(|x: (u32, String)| (x.0, x.1@));
    let star = chars_of("*.");
    proof {
        reveal_strlit("*.");
    }
    let mut out: Vec<String> = Vec::new();
    let n = rules.len();
    for k in 0..n
        invariant
            n == rules@.len(),
            views == rules@.map_values(|x: (u32, String)| (x.0, x.1@)),
            star@ == "*."@,
            star@.len() == 2,
            out@.map_values(|t: String| t@) == filter_tokens(views.take(k as int)),
    {
        let glob = chars_of(rules[k].1.as_str());
        proof {
            assert(views.take(k + 1).drop_last() == views.take(k as int));
            assert(views.take(k + 1).last() == (rules@[k as int].0, rules@[k as int].1@));
        }
        if rules[k].0 == 0 && begins_with(&glob, &star) {
            let mut token: Vec<char> = Vec::new();
            token.push('.');
            let mut j: usize = 2;
            while j < glob.len()
                invariant
                    2 <= j <= glob@.len(),
                    token@ == seq!['.'] + glob@.subrange(2, j as int),
                decreases glob@.len() - j,
            {
                token.push(glob[j]);
                proof {
                    assert(glob@.subrange(2, j + 1) == glob@.subrange(2, j as int).push(glob@[j as int]));
                }
                j = j + 1;
            }
            let ghost before = out@.map_values(|t: String| t@);
            out.push(string_from(&token));
            proof {
                assert(glob@.subrange(2, glob@.len() as int) == glob@.skip(2));
                assert(out@.map_values(|t: String| t@) == before.push(token@));
            }
        }
    }
    assert(views.take(n as int) == views);
    out
}

/// What the portal asked for, as far as the picker's command line goes.
pub struct PickRequest {
    pub title: String,
    pub action: PickAction,
    pub multiple: bool,
    pub accept_label: Option<String>,
    /// The names of the files of a multi-file save.
    pub save_files: Vec<Vec<u8>>,
    /// The first filter's rules: kind and glob.
    pub rules: Vec<(u32, String)>,
    pub current_name: Option<String>,
    pub current_file: Option<String>,
    pub current_folder: Option<String>,
}

/// The name the picker suggests: the requested one, else the current
/// file's name.
pub open spec fn suggested_name(r: PickRequest) -> Option<Seq<char>> {
    match r.current_name {
        Some(n) => Some(n@),
        None => match r.current_file {
            Some(f) => path_file_name(f@),
            None => None,
        },
    }
}

/// The folder the picker opens in: the requested one, else the current
/// file's folder, else `home`.
pub open spec fn start_folder(r: PickRequest, home: Option<Seq<char>>) -> Option<Seq<char>> {
    match r.current_folder {
        Some(f) => Some(f@),
        None => match r.current_file {
            Some(f) => match path_parent(f@) {
                Some(p) => Some(p),
                None => home,
            },
            None => home,
        },
    }
}

/// The picker's arguments after the program: mode, title, accept label,
/// `--multi` when several may be picked, the extension query when the
/// filter gives any, the suggested name and the start folder when known.
pub open spec fn picker_args_of(r: PickRequest, home: Option<Seq<char>>) -> Seq<Seq<char>> {
    let tokens = filter_tokens(r.rules@.map_values(|x: (u32, String)| (x.0, x.1@)));
    let base = seq![
        "--pick="@ + mode_of(r.action, r.save_files@.len() > 0),
        "--title="@ + title_of(r.title@),
        "--accept="@ + accept_of(opt_text(r.accept_label), r.action),
    ];
    let with_multi = if r.multiple {
        base.push("--multi"@)
    } else {
        base
    };
    let with_query = if tokens.len() > 0 {
        with_multi.push("--query="@ + joined_words(tokens))
    } else {
        with_multi
    };
    let with_name = match suggested_name(r) {
        Some(n) => with_query.push("--name="@ + n),
        None => with_query,
    };
    match start_folder(r, home) {
        Some(h) => with_name.push("--here="@ + h),
        None => with_name,
    }
}

/// Tokens joined by single spaces.
pub open spec fn joined_words(tokens: Seq<Seq<char>>) -> Seq<char>
    decreases tokens.len(),
{
    if tokens.len() == 0 {
        Seq::empty()
    } else if tokens.len() == 1 {
        tokens[0]
    } else {
        joined_words(tokens.drop_last()) + seq![' '] + tokens.last()
    }
}

fn prefixed(prefix: &str, value: &str) -> (r: String)
    ensures
        r@ == prefix@ + value@,
{
    let mut s = owned(prefix);
    push_text(&mut s, value);
    s
}

/// The picker's arguments for a request (see `picker_args_of`); `home` is
/// the user's home folder, when known.
pub fn picker_args(request: &PickRequest, home: Option<String>) -> (r: Vec<String>)
    ensures
        r@.map_values(|a: String| a@) == picker_args_of(*request, opt_text(home)),
{
    let mut args: Vec<String> = Vec::new();
    let mode = if request.save_files.len() > 0 {
        "folder"
    } else {
        match request.action {
            PickAction::Save => "save",
            PickAction::SelectFolder => "folder",
            PickAction::Open => "file",
        }
    };
    args.push(prefixed("--pick=", mode));
    let title = if request.title.as_str().is_empty() {
        "Megaman"
    } else {
        request.title.as_str()
    };
    args.push(prefixed("--title=", title));
    let accept = match &request.accept_label {
        Some(l) => l.as_str(),
        None => if request.action == PickAction::Save {
            "Save"
        } else {
            "Select"
        },
    };
    args.push(prefixed("--accept=", accept));
    let ghost base = args@.map_values(|a: String| a@);
    assert(base == seq![
        "--pick="@ + mode_of(request.action, request.save_files@.len() > 0),
        "--title="@ + title_of(request.title@),
        "--accept="@ + accept_of(opt_text(request.accept_label), request.action),
    ]);
    if request.multiple {
        args.push(owned("--multi"));
    }
    let tokens = filter_extensions(&request.rules);
    if tokens.len() > 0 {
        let mut query = owned("--query=");
        let ghost views = tokens@.map_values(|t: String| t@);
        let ghost start = query@;
        let n = tokens.len();
        for k in 0..n
            invariant
                n == tokens@.len(),
                views == tokens@.map_values(|t: String| t@),
                query@ == start + joined_words(views.take(k as int)),
        {
            if k > 0 {
                push_char(&mut query, ' ');
            }
            push_text(&mut query, tokens[k].as_str());
            proof {
                assert(views.take(k + 1).drop_last() == views.take(k as int));
                assert(views.take(k + 1).last() == tokens@[k as int]@);
                if k == 0 {
                    assert(views.take(0) == Seq::<Seq<char>>::empty());
                }
            }
        }
        assert(views.take(n as int) == views);
        args.push(query);
    }
    let name: Option<String> = match &request.current_name {
        Some(n) => Some(owned(n.as_str())),
        None => match &request.current_file {
            Some(f) => file_name_of(f.as_str()),
            None => None,
        },
    };
    if let Some(n) = name {
        args.push(prefixed("--name=", n.as_str()));
    }
    let here: Option<String> = match &request.current_folder {
        Some(f) => Some(owned(f.as_str())),
        None => match &request.current_file {
            Some(f) => match parent_of(f.as_str()) {
                Some(p) => Some(p),
                None => home,
            },
            None => home,
        },
    };
    if let Some(h) = here {
        args.push(prefixed("--here=", h.as_str()));
    }
    args
}

/// `name` pushed onto the byte path `folder` (`PathBuf::push` on Unix):
/// an absolute name replaces the folder; otherwise a `/` is put between
/// them unless the folder is empty or already ends with one.
pub open spec fn pushed_path(folder: Seq<u8>, name: Seq<u8>) -> Seq<u8> {
    if name.len() > 0 && name[0] == 0x2f {
        name
    } else if folder.len() == 0 || folder.last() == 0x2f {
        folder + name
    } else {
        folder + seq![0x2fu8] + name
    }
}

/// `name` pushed onto the byte path `folder` (see `pushed_path`).
pub fn push_path(folder: &Vec<u8>, name: &Vec<u8>) -> (r: Vec<u8>)
    ensures
        r@ == pushed_path(folder@, name@),
{
    if name.len() > 0 && name[0] == 0x2f {
        return name.clone();
    }
    let mut out = folder.clone();
    if !(folder.len() == 0 || folder[folder.len() - 1] == 0x2f) {
        out.push(0x2f);
    }
    let ghost start = out@;
    let mut k: usize = 0;
    while k < name.len()
        invariant
            k <= name@.len(),
            out@ == start + name@.take(k as int),
        decreases name@.len() - k,
    {
        out.push(name[k]);
        assert(name@.take(k + 1) == name@.take(k as int).push(name@[k as int]));
        k = k + 1;
    }
    assert(name@.take(name@.len() as int) == name@);
    out
}

/// The picker's answer: nothing when the request was cancelled or the
/// picker printed no path; for a multi-file save, each requested name
/// pushed onto the last printed path (the chosen folder); else the printed
/// paths.
pub open spec fn pick_outcome_of(
    printed: Seq<Seq<u8>>,
    cancelled: bool,
    save_files: Seq<Seq<u8>>,
) -> Option<Seq<Seq<u8>>> {
    if cancelled || printed.len() == 0 {
        None
    } else if save_files.len() > 0 {
        Some(save_files.map_values(|n: Seq<u8>| pushed_path(printed.last(), n)))
    } else {
        Some(printed)
    }
}

/// The picker's answer from its output (see `pick_outcome_of`).
pub fn pick_outcome(stdout: &[u8], cancelled: bool, save_files: &Vec<Vec<u8>>) -> (r: Option<Vec<Vec<u8>>>)
    ensures
        match pick_outcome_of(chunks_from(stdout@, 0), cancelled, save_files@.map_values(|n: Vec<u8>| n@)) {
            Some(paths) => r matches Some(v) && v@.map_values(|p: Vec<u8>| p@) == paths,
            None => r is None,
        },
{
    let printed = nul_chunks(stdout);
    if cancelled || printed.len() == 0 {
        return None;
    }
    if save_files.len() == 0 {
        return Some(printed);
    }
    let folder = &printed[printed.len() - 1];
    let ghost fv = printed@.map_values(|c: Vec<u8>| c@).last();
    assert(folder@ == fv);
    let mut out: Vec<Vec<u8>> = Vec::new();
    let mut k: usize = 0;
    while k < save_files.len()
        invariant
            k <= save_files@.len(),
            folder@ == fv,
            out@.map_values(|p: Vec<u8>| p@) == save_files@.map_values(|n: Vec<u8>| n@).take(k as int).map_values(
                |n: Seq<u8>| pushed_path(fv, n),
            ),
        decreases save_files@.len() - k,
    {
        let ghost before = out@.map_values(|p: Vec<u8>| p@);
        out.push(push_path(folder, &save_files[k]));
        proof {
            let names = save_files@.map_values(|n: Vec<u8>| n@);
            assert(out@.map_values(|p: Vec<u8>| p@) == before.push(pushed_path(fv, names[k as int])));
            assert(names.take(k + 1) == names.take(k as int).push(names[k as int]));
            assert(names.take(k + 1).map_values(|n: Seq<u8>| pushed_path(fv, n)) == names.take(
                k as int,
            ).map_values(|n: Seq<u8>| pushed_path(fv, n)).push(pushed_path(fv, names[k as int])));
        }
        k = k + 1;
    }
    assert(save_files@.map_values(|n: Vec<u8>| n@).take(save_files@.len() as int) == save_files@.map_values(
        |n: Vec<u8>| n@,
    ));
    Some(out)
}

} // verus!
