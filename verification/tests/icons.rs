use qfind::icons::{icon_files, needs_theme, theme_index};

#[test]
fn theme_index_inherits_current_theme() {
    assert_eq!(
        theme_index("Papirus"),
        "[Icon Theme]\nName=QfindWorkspace\nInherits=Papirus,Adwaita,hicolor\nDirectories=scalable/actions\n\n[scalable/actions]\nSize=24\nMinSize=16\nMaxSize=256\nType=Scalable\nContext=Actions\n"
    );
    assert!(needs_theme("Adwaita"));
    assert!(!needs_theme("QfindWorkspace"));
}

#[test]
fn icon_table_lines_make_files() {
    let tsv = "go-up up-symbolic\t<svg a/>\nno tab here\n\t<svg orphan/>\nstar\t<svg\tb/>\n";
    let files = icon_files(tsv);
    let want: Vec<(String, String)> = vec![
        ("go-up.svg".into(), "<svg a/>".into()),
        ("up-symbolic.svg".into(), "<svg a/>".into()),
        ("star.svg".into(), "<svg\tb/>".into()),
    ];
    assert_eq!(files, want);
}
