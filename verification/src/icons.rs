//! The bundled icon theme: its index file and the icon files it holds.

use vstd::prelude::*;

use crate::lines::{lines_of, next_of, split_lines};
use crate::text::{owned, push_text, split_words, string_from, words};

verus! {

/// The name of the bundled theme.
pub open spec fn theme_name() -> Seq<char> {
    "QfindWorkspace"@
}

/// Whether the bundled theme must be installed over `inherited` (the
/// current theme): not when it already is the current theme.
pub fn needs_theme(inherited: &str) -> (r: bool)
    ensures
        r == (inherited@ != theme_name()),
{
    let name = crate::text::chars_of("QfindWorkspace");
    let current = crate::text::chars_of(inherited);
    !crate::text::same_text(&current, &name)
}

/// The index file of the bundled theme, inheriting from `inherited`, then
/// Adwaita and hicolor.
pub open spec fn theme_index_of(inherited: Seq<char>) -> Seq<char> {
    "[Icon Theme]\nName=QfindWorkspace\nInherits="@ + inherited
        + ",Adwaita,hicolor\nDirectories=scalable/actions\n\n[scalable/actions]\nSize=24\nMinSize=16\nMaxSize=256\nType=Scalable\nContext=Actions\n"@
}

/// The index file of the bundled theme (see `theme_index_of`).
pub fn theme_index(inherited: &str) -> (r: String)
    ensures
        r@ == theme_index_of(inherited@),
{
    let mut s = owned("[Icon Theme]\nName=QfindWorkspace\nInherits=");
    push_text(&mut s, inherited);
    push_text(
        &mut s,
        ",Adwaita,hicolor\nDirectories=scalable/actions\n\n[scalable/actions]\nSize=24\nMinSize=16\nMaxSize=256\nType=Scalable\nContext=Actions\n",
    );
    s
}

/// The icon files one line of the icon table makes: the line is names, a
/// tab and the SVG text; each whitespace-separated name gets a file
/// `name.svg` with that text.  A line without a tab makes none.
pub open spec fn line_icons(line: Seq<char>) -> Seq<(Seq<char>, Seq<char>)> {
    let t = next_of(line, 0, '\t');
    if t >= line.len() {
        Seq::empty()
    } else {
        let svg = line.subrange(t + 1, line.len() as int);
        words(line.subrange(0, t)).map_values(|w: Seq<char>| (w + ".svg"@, svg))
    }
}

/// The icon files of the whole table, line by line.
pub open spec fn table_icons(lines: Seq<Seq<char>>) -> Seq<(Seq<char>, Seq<char>)>
    decreases lines.len(),
{
    if lines.len() == 0 {
        Seq::empty()
    } else {
        table_icons(lines.drop_last()) + line_icons(lines.last())
    }
}

/// The icon files of the icon table `tsv` (see `line_icons`): file name and
/// SVG text.
pub fn icon_files(tsv: &str) -> (r: Vec<(String, String)>)
    ensures
        r@.map_values(|f: (String, String)| (f.0@, f.1@)) == table_icons(lines_of(tsv@)),
{
    let chars = crate::text::chars_of(tsv);
    let lines = split_lines(&chars);
    let ghost views = lines@.map_values(|l: Vec<char>| l@);
    let mut out: Vec<(String, String)> = Vec::new();
    let n = lines.len();
    for k in 0..n
        invariant
            n == lines@.len(),
            views == lines@.map_values(|l: Vec<char>| l@),
            views == lines_of(tsv@),
            out@.map_values(|f: (String, String)| (f.0@, f.1@)) == table_icons(views.take(k as int)),
    {
        let line = &lines[k];
        proof {
            assert(views.take(k + 1).drop_last() == views.take(k as int));
            assert(views.take(k + 1).last() == line@);
        }
        let ghost before = out@.map_values(|f: (String, String)| (f.0@, f.1@));
        let mut t: usize = 0;
        while t < line.len() && line[t] != '\t'
            invariant
                t <= line@.len(),
                next_of(line@, 0, '\t') == next_of(line@, t as int, '\t'),
            decreases line@.len() - t,
        {
            t = t + 1;
        }
        if t < line.len() {
            let mut names: Vec<char> = Vec::new();
            let mut j: usize = 0;
            while j < t
                invariant
                    j <= t < line@.len(),
                    names@ == line@.subrange(0, j as int),
                decreases t - j,
            {
                names.push(line[j]);
                j = j + 1;
            }
            let mut svg_chars: Vec<char> = Vec::new();
            let mut m = t + 1;
            while m < line.len()
                invariant
                    t + 1 <= m <= line@.len(),
                    svg_chars@ == line@.subrange(t + 1, m as int),
                decreases line@.len() - m,
            {
                svg_chars.push(line[m]);
                m = m + 1;
            }
            let svg = string_from(&svg_chars);
            let ws = split_words(&names);
            let ghost icons = line_icons(line@);
            proof {
                assert(next_of(line@, t as int, '\t') == t);
                assert(icons == words(names@).map_values(|w: Seq<char>| (w + ".svg"@, svg@)));
            }
            let wn = ws.len();
            for q in 0..wn
                invariant
                    wn == ws@.len(),
                    ws@.len() == words(names@).len(),
                    forall|x: int| 0 <= x < ws@.len() ==> #[trigger] ws@[x]@ == words(names@)[x],
                    icons == words(names@).map_values(|w: Seq<char>| (w + ".svg"@, svg@)),
                    out@.map_values(|f: (String, String)| (f.0@, f.1@)) == before + icons.take(q as int),
            {
                let mut file = string_from(&ws[q]);
                push_text(&mut file, ".svg");
                let ghost mid = out@.map_values(|f: (String, String)| (f.0@, f.1@));
                out.push((file, owned(svg.as_str())));
                proof {
                    assert(out@.map_values(|f: (String, String)| (f.0@, f.1@)) == mid.push(
                        (ws@[q as int]@ + ".svg"@, svg@),
                    ));
                    assert(icons.take(q + 1) == icons.take(q as int).push(icons[q as int]));
                }
            }
            proof {
                assert(icons.take(wn as int) == icons);
            }
        } else {
            proof {
                assert(next_of(line@, t as int, '\t') == t);
                assert(line_icons(line@) == Seq::<(Seq<char>, Seq<char>)>::empty());
                assert(before + Seq::<(Seq<char>, Seq<char>)>::empty() == before);
            }
        }
    }
    assert(views.take(n as int) == views);
    out
}

} // verus!
