use yuque_ssg::error::Error;
use yuque_ssg::toc::generate::{generate_doc_sidebar, sort_by_order, walk, DirEntry, FileKind};
use yuque_ssg::toc::{Frontmatter, SidebarItem};

fn header(sidebar: &str, order: u32) -> Result<Frontmatter, Error> {
    Ok(Frontmatter {
        title: None,
        title_template: Some(sidebar.to_string()),
        sidebar: sidebar.to_string(),
        order,
        description: None,
        have_content: true,
    })
}

fn file(name: &str, sidebar: &str, order: u32) -> DirEntry {
    DirEntry { name: name.into(), kind: FileKind::File, header: header(sidebar, order), entries: vec![] }
}

fn dir(name: &str, sidebar: &str, order: u32, entries: Vec<DirEntry>) -> DirEntry {
    DirEntry { name: name.into(), kind: FileKind::Directory, header: header(sidebar, order), entries }
}

fn leaf(text: &str, link: &str, order: u32) -> SidebarItem {
    SidebarItem { text: text.into(), link: link.into(), items: None, collapsed: None, order }
}

fn orders(items: &[SidebarItem]) -> Vec<u32> {
    items.iter().map(|i| i.order).collect()
}

#[test]
fn the_entries_of_a_directory_are_in_the_order_of_their_headers() {
    let docs = dir(
        "guide",
        "Guide",
        0,
        vec![file("c.md", "C", 3), file("a.md", "A", 1), file("index.md", "Guide", 0), file("b.md", "B", 2)],
    );
    let items = walk(&vec![docs], "ns").unwrap();
    assert_eq!(items.len(), 1);
    assert_eq!(orders(items[0].items.as_ref().unwrap()), vec![1, 2, 3]);
    assert_eq!(
        items[0].items,
        Some(vec![
            leaf("A", "/ns/guide/a.html", 1),
            leaf("B", "/ns/guide/b.html", 2),
            leaf("C", "/ns/guide/c.html", 3),
        ])
    );
}

#[test]
fn a_directory_links_to_itself_and_is_shown_open() {
    let items = walk(&vec![dir("Guide", "The Guide", 5, vec![])], "/NS").unwrap();
    assert_eq!(
        items,
        vec![SidebarItem {
            text: "The Guide".into(),
            link: "/ns/guide/".into(),
            items: Some(vec![]),
            collapsed: Some(false),
            order: 5,
        }]
    );
}

#[test]
fn a_file_links_to_its_name_up_to_the_first_dot() {
    let items = walk(&vec![file("Intro.v2.md", "Intro", 1), file("plain", "Plain", 2)], "ns").unwrap();
    assert_eq!(items, vec![leaf("Intro", "/ns/intro.html", 1), leaf("Plain", "/ns/plain.html", 2)]);
}

#[test]
fn the_walk_itself_keeps_the_order_of_the_directory() {
    let items = walk(&vec![file("b.md", "B", 2), file("a.md", "A", 1)], "ns").unwrap();
    assert_eq!(orders(&items), vec![2, 1]);
}

#[test]
fn landing_pages_have_no_entry_of_their_own() {
    let items = walk(&vec![file("index.md", "I", 0), file("index-old.md", "J", 0), file("x.md", "X", 1)], "ns").unwrap();
    assert_eq!(items, vec![leaf("X", "/ns/x.html", 1)]);
    assert_eq!(walk(&vec![], "ns"), Ok(vec![]));
}

#[test]
fn directories_nest() {
    let tree = dir("a", "A", 1, vec![dir("b", "B", 1, vec![file("c.md", "C", 1)])]);
    let items = walk(&vec![tree], "ns").unwrap();
    let inner = &items[0].items.as_ref().unwrap()[0];
    assert_eq!(inner.link, "/ns/a/b/");
    assert_eq!(inner.items, Some(vec![leaf("C", "/ns/a/b/c.html", 1)]));
}

#[test]
fn a_header_that_could_not_be_read_ends_the_walk() {
    let broken = DirEntry {
        name: "b.md".into(),
        kind: FileKind::File,
        header: Err(Error::Internal("no header".into())),
        entries: vec![],
    };
    let later = DirEntry {
        name: "c.md".into(),
        kind: FileKind::File,
        header: Err(Error::Internal("never read".into())),
        entries: vec![],
    };
    assert_eq!(
        walk(&vec![file("a.md", "A", 1), broken, later], "ns"),
        Err(Error::Internal("no header".into()))
    );
    let bad_dir = DirEntry {
        name: "d".into(),
        kind: FileKind::Directory,
        header: Err(Error::Io("gone".into())),
        entries: vec![file("a.md", "A", 1)],
    };
    assert_eq!(walk(&vec![bad_dir], "ns"), Err(Error::Io("gone".into())));
    let deep = dir("d", "D", 1, vec![DirEntry {
        name: "x.md".into(),
        kind: FileKind::File,
        header: Err(Error::Io("deep".into())),
        entries: vec![],
    }]);
    assert_eq!(walk(&vec![deep], "ns"), Err(Error::Io("deep".into())));
}

#[test]
fn an_entry_that_is_neither_file_nor_directory_has_no_text() {
    let odd = DirEntry { name: "socket".into(), kind: FileKind::Other, header: header("x", 1), entries: vec![] };
    assert_eq!(walk(&vec![odd], "ns"), Err(Error::Internal("`text` must be initialized".into())));
}

#[test]
fn entries_of_one_order_keep_the_order_in_which_they_came() {
    let sorted = sort_by_order(vec![
        leaf("c", "", 3),
        leaf("a1", "", 1),
        leaf("b", "", 2),
        leaf("a2", "", 1),
        leaf("a3", "", 1),
    ]);
    let texts: Vec<&str> = sorted.iter().map(|i| i.text.as_str()).collect();
    assert_eq!(texts, vec!["a1", "a2", "a3", "b", "c"]);
    assert_eq!(sort_by_order(vec![]), vec![]);
}

#[test]
fn sorting_three_entries() {
    assert_eq!(orders(&sort_by_order(vec![leaf("", "", 3), leaf("", "", 1), leaf("", "", 2)])), vec![1, 2, 3]);
}

#[test]
fn every_namespace_directory_has_its_sidebar() {
    let root = vec![
        dir(".vitepress", "", 0, vec![file("x.md", "X", 1)]),
        dir("_drafts", "", 0, vec![file("x.md", "X", 1)]),
        file("README.md", "R", 0),
        dir("Kb", "", 0, vec![file("b.md", "B", 2), file("a.md", "A", 1), file("index.md", "I", 0)]),
        dir("other", "", 0, vec![]),
    ];
    let sidebar = generate_doc_sidebar(&root).unwrap();
    assert_eq!(sidebar.len(), 2);
    assert_eq!(sidebar.link(0), Some(&"/kb/".to_string()));
    assert_eq!(
        sidebar.get("/kb/"),
        Some(&vec![leaf("A", "/Kb/a.html".to_lowercase().as_str(), 1), leaf("B", "/kb/b.html", 2)])
    );
    assert_eq!(sidebar.items(1), Some(&vec![]));
    assert_eq!(sidebar.get("/.vitepress/"), None);
    assert_eq!(sidebar.link(2), None);
}

#[test]
fn the_header_of_a_namespace_directory_is_not_read() {
    let root = vec![DirEntry {
        name: "kb".into(),
        kind: FileKind::Directory,
        header: Err(Error::Io("no landing page yet".into())),
        entries: vec![file("a.md", "A", 1)],
    }];
    assert_eq!(generate_doc_sidebar(&root).unwrap().get("/kb/"), Some(&vec![leaf("A", "/kb/a.html", 1)]));
}

#[test]
fn an_error_in_one_namespace_ends_the_sidebar() {
    let root = vec![dir("kb", "", 0, vec![DirEntry {
        name: "a.md".into(),
        kind: FileKind::File,
        header: Err(Error::Internal("bad".into())),
        entries: vec![],
    }])];
    assert!(matches!(generate_doc_sidebar(&root), Err(Error::Internal(_))));
}

#[test]
fn a_copy_of_an_entry_is_equal_to_it() {
    let item = SidebarItem {
        text: "t".into(),
        link: "l".into(),
        items: Some(vec![leaf("a", "b", 1), leaf("c", "d", 2)]),
        collapsed: Some(true),
        order: 9,
    };
    assert_eq!(item.duplicate(), item);
}
