use cdt_api::memory::{
    build_project_memory, discover_memory_layers, memory_markdown_files, orphan_title_of, parse_memory_index,
    parse_memory_index_line, DirEntryInfo, MemoryLayer, MemoryLayerKind,
};
use cdt_api::paths::{validate_memory_file_name, validate_project_base_dir};

fn entry(name: &str, is_file: bool) -> DirEntryInfo {
    DirEntryInfo { name: name.to_string(), is_file }
}

fn files(names: &[&str]) -> Vec<String> {
    names.iter().map(|n| n.to_string()).collect()
}

#[test]
fn project_memory_discovers_index_entries_and_orphans() {
    let listing = vec![
        entry("MEMORY.md", true),
        entry("feedback_chinese_language.md", true),
        entry("extra_note.md", true),
        entry("ignored.json", true),
    ];
    let md = memory_markdown_files(&listing);
    let index = "- [始终使用中文](feedback_chinese_language.md) — 对话/注释全部中文\n";
    let layers = discover_memory_layers(&md, Some(index));
    let overview = build_project_memory("proj-a", layers);
    assert!(overview.has_memory);
    assert_eq!(overview.count, 3);
    assert_eq!(overview.default_file.as_deref(), Some("MEMORY.md"));
    assert_eq!(overview.layers[0].kind, MemoryLayerKind::Index);
    assert_eq!(overview.layers[1].file, "feedback_chinese_language.md");
    assert_eq!(overview.layers[1].kind, MemoryLayerKind::Entry);
    assert_eq!(overview.layers[1].hook.as_deref(), Some("对话/注释全部中文"));
    assert_eq!(overview.layers[2].file, "extra_note.md");
    assert_eq!(overview.layers[2].kind, MemoryLayerKind::Orphan);
}

#[test]
fn project_memory_missing_dir_returns_empty() {
    let layers = discover_memory_layers(&[], None);
    let overview = build_project_memory("proj-a", layers);
    assert!(!overview.has_memory);
    assert_eq!(overview.count, 0);
    assert!(overview.default_file.is_none());
    assert!(overview.layers.is_empty());
}

#[test]
fn markdown_listing_is_sorted_deduplicated_and_case_insensitive() {
    let listing = vec![
        entry("b.md", true),
        entry("a.MD", true),
        entry("dir.md", false),
        entry("b.md", true),
        entry(".md", true),
        entry("notes.txt", true),
    ];
    assert_eq!(memory_markdown_files(&listing), files(&["a.MD", "b.md"]));
}

#[test]
fn index_line_parsing() {
    let md = files(&["a.md", "b.md"]);
    let l = parse_memory_index_line("  - [ Title A ](a.md) — hook text  ", &md).unwrap();
    assert_eq!(l.file, "a.md");
    assert_eq!(l.title, "Title A");
    assert_eq!(l.hook.as_deref(), Some("hook text"));
    assert_eq!(l.kind, MemoryLayerKind::Entry);
    let no_hook = parse_memory_index_line("- [B](b.md)", &md).unwrap();
    assert_eq!(no_hook.hook, None);
    let empty_hook = parse_memory_index_line("- [B](b.md) —   ", &md).unwrap();
    assert_eq!(empty_hook.hook, None);
    assert!(parse_memory_index_line("* [A](a.md)", &md).is_none());
    assert!(parse_memory_index_line("- [C](c.md)", &md).is_none(), "unknown file");
    assert!(parse_memory_index_line("- [X](../a.md)", &md).is_none(), "not a local file");
    assert!(parse_memory_index_line("- [A] (a.md", &md).is_none(), "no closing parenthesis");
}

#[test]
fn index_parsing_keeps_order_and_handles_crlf() {
    let md = files(&["a.md", "b.md"]);
    let layers = parse_memory_index("# Index\r\n- [B](b.md)\r\n\r\n- [A](a.md) — first\r\n", &md);
    let got: Vec<&str> = layers.iter().map(|l: &MemoryLayer| l.file.as_str()).collect();
    assert_eq!(got, vec!["b.md", "a.md"]);
    assert_eq!(layers[1].hook.as_deref(), Some("first"));
}

#[test]
fn orphan_titles_strip_suffix_and_separators() {
    assert_eq!(orphan_title_of("extra_note.md"), "extra note");
    assert_eq!(orphan_title_of("a-b_c.md.md"), "a b c");
    assert_eq!(orphan_title_of("Upper.MD"), "Upper.MD");
}

#[test]
fn index_without_memory_file_is_ignored() {
    let md = files(&["a.md"]);
    let layers = discover_memory_layers(&md, Some("- [A](a.md)"));
    assert_eq!(layers.len(), 1);
    assert_eq!(layers[0].kind, MemoryLayerKind::Orphan);
    assert_eq!(layers[0].title, "a");
    let overview = build_project_memory("p", layers);
    assert_eq!(overview.default_file.as_deref(), Some("a.md"));
}

#[test]
fn read_memory_file_rejects_path_traversal_and_non_markdown() {
    assert_eq!(validate_memory_file_name("MEMORY.md").unwrap(), "MEMORY.md");
    assert!(validate_memory_file_name("../config.json").is_err());
    assert!(validate_memory_file_name("secret.json").is_err());
    assert!(validate_memory_file_name("C:\\\\secret.md").is_err());
    assert!(validate_memory_file_name("").is_err());
    assert!(validate_project_base_dir("../outside").is_err());
    assert!(validate_project_base_dir("proj-a").is_ok());
}
