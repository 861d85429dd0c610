use qfind::places::{
    bookmark_uris, bookmarks_text, dedup_paths, parse_here, place_name, set_pinned, xbel_hrefs,
};

fn strings(items: &[&str]) -> Vec<String> {
    items.iter().map(|s| s.to_string()).collect()
}

#[test]
fn here_from_arguments_and_environment() {
    assert_eq!(parse_here(&strings(&["--here", "/tmp"]), None), Some("/tmp".into()));
    assert_eq!(parse_here(&strings(&["-v", "--here=/srv"]), Some("/env".into())), Some("/srv".into()));
    assert_eq!(parse_here(&strings(&["--here="]), Some("/env".into())), Some("/env".into()));
    assert_eq!(parse_here(&strings(&["--here", ""]), Some("/env".into())), None);
    assert_eq!(parse_here(&strings(&["--here"]), Some("/env".into())), None);
    assert_eq!(parse_here(&strings(&[]), Some(String::new())), None);
    assert_eq!(parse_here(&strings(&["x"]), None), None);
}

#[test]
fn gtk_bookmark_lines() {
    let text = "file:///home/u/Music Music\n\n   \nfile:///srv  \nsftp://host/x label\n";
    assert_eq!(bookmark_uris(text), strings(&["file:///home/u/Music", "file:///srv", "sftp://host/x"]));
}

#[test]
fn kde_places_hrefs() {
    let text = r#"<xbel><bookmark href="file:///a"><title>A</title></bookmark><bookmark href="file:///b%20c"/><x href="unterminated"#;
    assert_eq!(xbel_hrefs(text), strings(&["file:///a", "file:///b%20c", "unterminated"]));
    assert_eq!(xbel_hrefs("no links"), Vec::<String>::new());
}

#[test]
fn duplicate_places_dropped() {
    let paths = strings(&["/a", "/b", "/a", "/a/", "/c", "/b"]);
    assert_eq!(dedup_paths(&paths), strings(&["/a", "/b", "/c"]));
}

#[test]
fn pinning_and_unpinning() {
    let saved = strings(&["/a", "/b", "/a/"]);
    assert_eq!(set_pinned(&saved, "/a", true), strings(&["/b", "/a"]));
    assert_eq!(set_pinned(&saved, "/a", false), strings(&["/b"]));
    assert_eq!(set_pinned(&saved, "/c", true), strings(&["/a", "/b", "/a/", "/c"]));
}

#[test]
fn bookmark_file_round_trip() {
    let pins = strings(&["/a", "/b c", "/d"]);
    let text = bookmarks_text(&pins);
    assert_eq!(text, "/a\n/b c\n/d");
    assert_eq!(text.lines().map(String::from).collect::<Vec<_>>(), pins);
    assert_eq!(bookmarks_text(&vec![]), "");
}

#[test]
fn place_names() {
    assert_eq!(place_name("/home/u/Music"), "Music");
    assert_eq!(place_name("/"), "Folder");
}
