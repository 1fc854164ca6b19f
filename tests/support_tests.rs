use batch_convert::error::Error;
use batch_convert::fs_path::FsPath;
use batch_convert::lazy_logger::LazyLogger;
use batch_convert::pandoc::PandocConverter;
use batch_convert::prelude::W;
use batch_convert::provision::{get_pandoc_path, pandoc_candidates};

fn path(root: &str, names: &[&str]) -> FsPath {
    FsPath::new(root.to_string(), names.iter().map(|n| n.to_string()).collect())
}

#[test]
fn logger_collects_lines() {
    let mut log = LazyLogger::new();
    log.log_input_output("a.docx", "a.md");
    assert_eq!(log.buf, b"\nConverting 'a.docx' to 'a.md'".to_vec());
    log.insert("é");
    log.new_line();
    assert_eq!(log.buf.len(), 30 + 2 + 1);
    let taken = log.take_contents();
    assert_eq!(taken.last(), Some(&b'\n'));
    assert!(log.buf.is_empty());
    log.insert("x");
    log.clear();
    assert!(log.buf.is_empty());
}

#[test]
fn media_folder_is_named_after_stem() {
    let out = path("/", &["out", "sub", "a.md"]);
    let media = PandocConverter::media_folder(&out).unwrap();
    assert_eq!(media.root, "/");
    assert_eq!(media.names, vec!["out".to_string(), "sub".to_string(), "a".to_string()]);
}

#[test]
fn media_folder_needs_a_file_name() {
    assert!(matches!(PandocConverter::media_folder(&path("/", &[])), Err(Error::Generic(_))));
    assert!(matches!(PandocConverter::media_folder(&path("", &["a", ".."])), Err(Error::Generic(_))));
    assert!(matches!(PandocConverter::media_folder(&path("", &["."])), Err(Error::Generic(_))));
}

#[test]
fn converter_reports_its_program() {
    let c = PandocConverter::new("/usr/bin/pandoc".to_string());
    assert_eq!(c.name(), "/usr/bin/pandoc");
}

#[test]
fn candidates_follow_search_path_order() {
    let dirs = vec![path("/", &["usr", "bin"]), path("/", &["opt"])];
    let c = pandoc_candidates(&dirs);
    let got: Vec<Vec<String>> = c.iter().map(|p| p.names.clone()).collect();
    let want: Vec<Vec<String>> = [
        vec!["usr", "bin", "pandoc"],
        vec!["usr", "bin", "pandoc-bin"],
        vec!["usr", "bin", "pandoc-cli"],
        vec!["opt", "pandoc"],
        vec!["opt", "pandoc-bin"],
        vec!["opt", "pandoc-cli"],
    ]
    .iter()
    .map(|v| v.iter().map(|s| s.to_string()).collect())
    .collect();
    assert_eq!(got, want);
}

#[test]
fn pandoc_path_found_or_not() {
    let p = get_pandoc_path(Some(path("/", &["usr", "bin", "pandoc"]))).unwrap();
    assert_eq!(p.names.len(), 3);
    assert!(matches!(get_pandoc_path(None), Err(Error::PandocNotFound(_))));
}

#[test]
fn wrapper_holds_its_value() {
    let w = W(5u8);
    assert_eq!(w.0, 5);
}
