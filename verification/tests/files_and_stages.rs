use marin::com::compiler::{init, Parsed, StagedFileInfo};
use marin::com::file_tree::FileTree;
use marin::com::loc::Span;
use marin::com::reporting::Header;
use marin::com::token::Token;
use std::path::PathBuf;

#[test]
fn file_tree_by_parts() {
    let mut tree: FileTree<u32> = FileTree::new();
    let dirs = vec!["src".to_string(), "com".to_string()];
    tree.add_file_at(&dirs, "a.mar".to_string(), 1);
    tree.add_file_at(&dirs, "b.mar".to_string(), 2);
    tree.add_file_at(&vec![], "top.mar".to_string(), 3);
    assert_eq!(tree.get_by_parts(&dirs, &"a.mar".to_string()), Some(&1));
    assert_eq!(tree.get_by_parts(&dirs, &"b.mar".to_string()), Some(&2));
    assert_eq!(tree.get_by_parts(&vec![], &"top.mar".to_string()), Some(&3));
    assert_eq!(tree.get_by_parts(&vec!["src".to_string()], &"a.mar".to_string()), None);
    let src = tree.get_dir(&"src".to_string()).unwrap();
    assert!(src.get_dir(&"com".to_string()).is_some());
    assert_eq!(tree.get_file(&"top.mar".to_string()), Some(&3));
    assert_eq!(tree.get_file(&"a.mar".to_string()), None);
}

#[test]
fn file_tree_replaces_a_file() {
    let mut tree: FileTree<&str> = FileTree::new();
    let dirs = vec!["d".to_string()];
    tree.add_file_at(&dirs, "f".to_string(), "old");
    tree.add_file_at(&dirs, "f".to_string(), "new");
    assert_eq!(tree.get_by_parts(&dirs, &"f".to_string()), Some(&"new"));
}

#[test]
fn file_tree_by_path() {
    let mut tree: FileTree<u8> = FileTree::new();
    tree.add_file("lib/std/list.mar", 7);
    assert_eq!(tree.get_by_path("lib/std/list.mar"), Some(&7));
    assert_eq!(tree.get_by_parts(&vec!["lib".to_string(), "std".to_string()], &"list.mar".to_string()), Some(&7));
    assert_eq!(tree.get_by_path("lib/list.mar"), None);
    tree.add_file("/", 9);
    assert_eq!(tree.get_by_path("/"), None);
}

#[test]
fn staging_checks_paths() {
    let mut c = init();
    c.add_file_with_info("missing.mar".to_string(), false, Some("mar".to_string()), None, StagedFileInfo::default());
    assert!(matches!(&c.reports[0].header, Header::CompilerNoSuchPath(p) if p == "missing.mar"));
    c.add_file_with_info("notes.txt".to_string(), true, Some("txt".to_string()), None, StagedFileInfo::default());
    assert!(matches!(&c.reports[1].header, Header::CompilerBadExtension(p) if p == "notes.txt"));
    c.add_file_with_info(
        "main.mar".to_string(),
        true,
        Some("mar".to_string()),
        Some((PathBuf::from("/work/main.mar"), PathBuf::from("main.mar"))),
        StagedFileInfo::default(),
    );
    assert_eq!(c.reports.len(), 2);
    assert_eq!(c.files.0.len(), 1);
    assert_eq!(c.files.0[0].1, PathBuf::from("/work/main.mar"));
}

#[test]
fn compiler_parses_read_sources() {
    let mut c = init();
    c.add_file_with_info(
        "main.mar".to_string(),
        true,
        Some("mar".to_string()),
        Some((PathBuf::from("/work/main.mar"), PathBuf::from("main.mar"))),
        StagedFileInfo::default(),
    );
    let sourced = c.read_sources(vec![("main.mar".to_string(), Ok("x )".to_string()))]);
    assert!(!sourced.is_fatal());
    assert_eq!(sourced.files.0[0].0.source, "x )");
    let lexed = vec![vec![(Some(Token::Ident), Span::new(0, 1)), (Some(Token::RightParen), Span::new(2, 3))]];
    let parsed = sourced.parse(lexed);
    assert_eq!(parsed.files.0.len(), 1);
    let Parsed(ast, _) = &parsed.files.0[0].2;
    assert_eq!(ast.0.len(), 1);
    assert_eq!(parsed.reports.len(), 1);
    assert!(matches!(parsed.reports[0].header, Header::ExpectedToken(Token::Eof, Token::RightParen)));
    assert!(parsed.is_fatal());
}

#[test]
fn unreadable_source_is_reported() {
    let mut c = init();
    c.add_file_with_info(
        "a.mar".to_string(),
        true,
        Some("mar".to_string()),
        Some((PathBuf::from("/w/a.mar"), PathBuf::from("a.mar"))),
        StagedFileInfo::default(),
    );
    let sourced = c.read_sources(vec![("a.mar".to_string(), Err("denied".to_string()))]);
    assert_eq!(sourced.files.0[0].0.source, "");
    assert!(matches!(&sourced.reports[0].header, Header::CompilerIO(p, e) if p == "a.mar" && e == "denied"));
}

#[test]
fn files_added_by_path_are_found_by_path_and_parts() {
    let mut tree: FileTree<i32> = FileTree::new();
    tree.add_file("lib/src/a.mar", 7);
    tree.add_file("top.mar", 8);
    assert_eq!(tree.get_by_path("lib/src/a.mar"), Some(&7));
    assert_eq!(tree.get_by_parts(&vec!["lib".to_string(), "src".to_string()], &"a.mar".to_string()), Some(&7));
    assert_eq!(tree.get_by_path("top.mar"), Some(&8));
    assert_eq!(tree.get_by_path("lib/a.mar"), None);
    tree.add_file("", 9);
    assert_eq!(tree.get_by_path(""), None);
}
