use yuque_ssg::toc::parse::{parse_toc_structure, ResolvedPath, TocEntry};

fn doc(level: u32, title: &str, has_children: bool) -> TocEntry {
    TocEntry::Doc {
        level,
        title: title.to_string(),
        child_uuid: if has_children { "child".to_string() } else { String::new() },
        id: 7,
        url: title.to_lowercase(),
    }
}

fn title(level: u32, text: &str, has_children: bool) -> TocEntry {
    TocEntry::Title {
        level,
        title: text.to_string(),
        child_uuid: if has_children { "child".to_string() } else { String::new() },
    }
}

fn texts(paths: &[ResolvedPath]) -> Vec<String> {
    paths.iter().map(|p| p.path()).collect()
}

#[test]
fn a_namespace_with_one_subtree() {
    let mut toc = vec![title(0, "Root", false), doc(1, "Root", true), doc(1, "Child", false)];
    toc.remove(0);
    let paths = parse_toc_structure("root-ns", &toc);
    assert_eq!(
        texts(&paths),
        vec!["docs/root-ns/root/index.md".to_string(), "docs/root-ns/root/child.md".to_string()]
    );
}

#[test]
fn one_path_for_each_entry_in_order() {
    let toc = vec![doc(0, "A", false), title(1, "Guide", true), doc(1, "B", false), doc(0, "C", false)];
    let paths = parse_toc_structure("ns", &toc);
    assert_eq!(paths.len(), 4);
    assert_eq!(
        texts(&paths),
        vec![
            "docs/ns/a.md".to_string(),
            "docs/ns/guide".to_string(),
            "docs/ns/guide/b.md".to_string(),
            "docs/ns/c.md".to_string(),
        ]
    );
    for (path, entry) in paths.iter().zip(toc.iter()) {
        assert_eq!(&path.entry, entry);
    }
}

#[test]
fn the_empty_outline_has_no_paths() {
    assert!(parse_toc_structure("ns", &Vec::new()).is_empty());
}

#[test]
fn a_heading_resolves_to_its_directory() {
    let paths = parse_toc_structure("ns", &vec![title(1, "Part One", true)]);
    assert_eq!(paths[0].file_name, None);
    assert_eq!(paths[0].directory, vec!["docs/ns".to_string(), "part -one".to_string()]);
    assert_eq!(paths[0].path(), "docs/ns/part -one");
}

#[test]
fn deeper_levels_are_closed_before_a_shallower_entry() {
    let toc = vec![
        doc(1, "A", true),
        doc(2, "B", true),
        doc(2, "C", false),
        doc(1, "D", false),
        doc(0, "E", false),
    ];
    let paths = parse_toc_structure("ns", &toc);
    assert_eq!(
        texts(&paths),
        vec![
            "docs/ns/a/index.md".to_string(),
            "docs/ns/a/b/index.md".to_string(),
            "docs/ns/a/b/c.md".to_string(),
            "docs/ns/a/d.md".to_string(),
            "docs/ns/e.md".to_string(),
        ]
    );
}

#[test]
fn in_an_aligned_outline_depth_is_level() {
    let toc = vec![
        doc(0, "Top", false),
        doc(1, "A", true),
        doc(1, "A1", false),
        title(2, "B", true),
        doc(2, "B1", false),
        doc(0, "Last", false),
    ];
    let paths = parse_toc_structure("ns", &toc);
    for (path, entry) in paths.iter().zip(toc.iter()) {
        assert_eq!(path.directory.len() - 1, entry.level() as usize);
    }
    assert_eq!(paths[0].directory, vec!["docs/ns".to_string()]);
    assert_eq!(paths[5].directory, vec!["docs/ns".to_string()]);
}

#[test]
fn an_entry_with_children_at_the_level_before_it_lies_one_deeper() {
    let paths = parse_toc_structure("ns", &vec![doc(0, "A", true)]);
    assert_eq!(paths[0].path(), "docs/ns/a/index.md");
    assert_eq!(paths[0].directory.len() - 1, 1);
}

#[test]
fn titles_of_the_script_become_directories_of_their_sounds() {
    let paths = parse_toc_structure("ns", &vec![doc(1, "首页", true), doc(1, "介绍", false)]);
    assert_eq!(
        texts(&paths),
        vec!["docs/ns/shou-ye/index.md".to_string(), "docs/ns/shou-ye/jie-shao.md".to_string()]
    );
}

#[test]
fn the_accessors_read_the_entry() {
    let entry = doc(3, "T", true);
    assert_eq!(entry.level(), 3);
    assert_eq!(entry.title(), "T");
    assert!(entry.opens());
    assert!(!title(0, "x", false).opens());
    assert_eq!(entry.clone(), entry);
}
