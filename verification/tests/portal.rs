use qfind::portal::{pick_outcome, push_path};
use qfind::portal::{filter_extensions, nul_chunks, picker_args, until_nul, PickAction, PickRequest};

fn request() -> PickRequest {
    PickRequest {
        title: String::new(),
        action: PickAction::Open,
        multiple: false,
        accept_label: None,
        save_files: vec![],
        rules: vec![],
        current_name: None,
        current_file: None,
        current_folder: None,
    }
}

#[test]
fn bytes_before_nul() {
    assert_eq!(until_nul(b"/tmp/x\0garbage"), b"/tmp/x".to_vec());
    assert_eq!(until_nul(b"plain"), b"plain".to_vec());
    assert_eq!(until_nul(b"\0"), Vec::<u8>::new());
}

#[test]
fn picker_output_chunks() {
    assert_eq!(nul_chunks(b"/a\0/b\0"), vec![b"/a".to_vec(), b"/b".to_vec()]);
    assert_eq!(nul_chunks(b"\0\0/c\0\0/d"), vec![b"/c".to_vec(), b"/d".to_vec()]);
    assert!(nul_chunks(b"").is_empty());
}

#[test]
fn filter_globs_become_extension_tokens() {
    let rules = vec![(0, "*.png".to_string()), (1, "image/png".to_string()), (0, "*.jpg".to_string()), (0, "photo*".to_string())];
    assert_eq!(filter_extensions(&rules), vec![".png".to_string(), ".jpg".to_string()]);
}

#[test]
fn picker_arguments_for_open() {
    let args = picker_args(&request(), Some("/home/u".into()));
    assert_eq!(args, vec!["--pick=file", "--title=Megaman", "--accept=Select", "--here=/home/u"]);
    assert_eq!(picker_args(&request(), None), vec!["--pick=file", "--title=Megaman", "--accept=Select"]);
}

#[test]
fn picker_arguments_for_save() {
    let mut r = request();
    r.title = "Export".into();
    r.action = PickAction::Save;
    r.multiple = true;
    r.rules = vec![(0, "*.png".into()), (0, "*.jpg".into())];
    r.current_file = Some("/docs/report.pdf".into());
    let args = picker_args(&r, Some("/home/u".into()));
    assert_eq!(
        args,
        vec!["--pick=save", "--title=Export", "--accept=Save", "--multi", "--query=.png .jpg", "--name=report.pdf", "--here=/docs"]
    );
    r.save_files = vec![b"a".to_vec()];
    r.accept_label = Some("Keep".into());
    r.current_name = Some("new.txt".into());
    r.current_folder = Some("/out".into());
    let args = picker_args(&r, None);
    assert_eq!(args[0], "--pick=folder");
    assert_eq!(args[2], "--accept=Keep");
    assert_eq!(args[5], "--name=new.txt");
    assert_eq!(args[6], "--here=/out");
    r.action = PickAction::SelectFolder;
    r.save_files.clear();
    assert_eq!(picker_args(&r, None)[0], "--pick=folder");
}

#[test]
fn pick_outcomes() {
    assert_eq!(push_path(&b"/d".to_vec(), &b"a.txt".to_vec()), b"/d/a.txt".to_vec());
    assert_eq!(push_path(&b"/d/".to_vec(), &b"a.txt".to_vec()), b"/d/a.txt".to_vec());
    assert_eq!(push_path(&b"/d".to_vec(), &b"/abs".to_vec()), b"/abs".to_vec());
    assert_eq!(push_path(&Vec::new(), &b"a".to_vec()), b"a".to_vec());
    let none: Vec<Vec<u8>> = vec![];
    assert_eq!(pick_outcome(b"/a\0/b\0", false, &none), Some(vec![b"/a".to_vec(), b"/b".to_vec()]));
    assert_eq!(pick_outcome(b"/a\0", true, &none), None);
    assert_eq!(pick_outcome(b"\0\0", false, &none), None);
    let names = vec![b"x.txt".to_vec(), b"y.txt".to_vec()];
    assert_eq!(
        pick_outcome(b"/first\0/dest\0", false, &names),
        Some(vec![b"/dest/x.txt".to_vec(), b"/dest/y.txt".to_vec()])
    );
}
