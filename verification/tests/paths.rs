use std::path::Path;

use sessio::paths::{is_jsonl_path, join_path, settings_path_for};

#[test]
fn join_matches_std_on_unix() {
    let cases = [
        ("out", "sessions"),
        ("out/", "sessions"),
        ("", "sessions"),
        ("/", "x"),
        ("a/b", "/abs"),
        ("a", ""),
        ("./x", "-slug"),
    ];
    for (base, part) in cases {
        let expected = Path::new(base).join(part).to_string_lossy().into_owned();
        assert_eq!(join_path(base, part), expected, "{:?} + {:?}", base, part);
    }
}

#[test]
fn jsonl_extension_matches_std_on_unix() {
    let cases = [
        "out.jsonl",
        "dir/out.jsonl",
        "dir/out.jsonl/",
        "dir/out.jsonl/.",
        "dir/out.jsonl/..",
        ".jsonl",
        "dir/.jsonl",
        "a..jsonl",
        "out.JSONL",
        "out.jsonlx",
        "out.json",
        "jsonl",
        "",
        "/",
        ".",
        "..",
        "./x.jsonl",
        "a/./",
        "x.y.jsonl",
        "dir.jsonl/file",
    ];
    for p in cases {
        let expected = Path::new(p).extension().and_then(|e| e.to_str()) == Some("jsonl");
        assert_eq!(is_jsonl_path(p), expected, "for {:?}", p);
    }
}

#[test]
fn settings_path_matches_std_on_unix() {
    let cases = [
        "s.jsonl",
        "dir/abc.jsonl",
        "dir/abc",
        "dir/abc.jsonl/",
        "dir/.hidden",
        "dir/.hidden.jsonl",
        "dir/a.b.c",
        "dir/a./",
        "dir/..",
        "dir/.",
        "",
        "/",
        ".",
        "x/./",
        "a..b",
    ];
    for p in cases {
        let expected = Path::new(p).with_extension("settings.json").to_string_lossy().into_owned();
        assert_eq!(settings_path_for(p), expected, "for {:?}", p);
    }
}

#[test]
fn settings_file_sits_beside_session_file() {
    assert_eq!(
        settings_path_for("/home/u/.factory/sessions/-p/1234.jsonl"),
        "/home/u/.factory/sessions/-p/1234.settings.json"
    );
}
