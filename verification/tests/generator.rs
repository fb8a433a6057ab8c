use yuque_ssg::config::{CheckedGeneratorConfig, Namespace};
use yuque_ssg::error::Error;
use yuque_ssg::generator::{
    BuildCommand, DocSummary, Generated, Generator, Job, Regeneration, Repository,
};
use yuque_ssg::navbar::{build_navbar, NavbarEntry};
use yuque_ssg::schema::{filter_schema, SchemaEntry};
use yuque_ssg::toc::parse::TocEntry;
use yuque_ssg::toc::{Frontmatter, NavbarItem};

fn generator_with(build_command: &str) -> Generator {
    Generator::from_config(CheckedGeneratorConfig {
        host: "https://kb.example.com".into(),
        token: "SECRET-REDACTED".into(),
        namespaces: vec![],
        build_command: build_command.into(),
    })
}

fn namespace(toc: bool, nav: &str) -> Namespace {
    Namespace { target: "team/kb".into(), toc, text: "Knowledge".into(), nav: nav.into() }
}

fn doc(level: u32, title: &str, url: &str, id: u32, has_children: bool) -> TocEntry {
    TocEntry::Doc {
        level,
        title: title.into(),
        child_uuid: if has_children { "c".into() } else { String::new() },
        id,
        url: url.into(),
    }
}

fn repository(toc: Option<Vec<TocEntry>>) -> Repository {
    Repository {
        id: 42,
        name: "Root-NS".into(),
        namespace: "team/kb".into(),
        description: Some("All about it.".into()),
        toc,
    }
}

#[test]
fn a_generator_starts_with_nothing_written() {
    let g = generator_with("npm run docs:build");
    assert_eq!(g.host, "https://kb.example.com");
    assert_eq!(g.token, "SECRET-REDACTED");
    assert_eq!(g.build_command, "npm run docs:build");
    assert!(g.namespaces.is_empty() && g.ns_id_path.is_empty() && g.id_ns.is_empty());
    assert_eq!(g.schemas.len(), 0);
    assert!(g.article_path.get("team/kb").is_none());
}

#[test]
fn a_namespace_with_an_outline() {
    let toc = vec![
        TocEntry::Title { level: 0, title: "Root".into(), child_uuid: String::new() },
        doc(1, "Root", "root-slug", 11, true),
        doc(1, "Child", "child-slug", 12, false),
    ];
    let mut g = generator_with("npm run docs:build");
    let plan = g.generate_one(&namespace(true, ""), &repository(Some(toc)), &vec![]).unwrap();
    assert_eq!(
        plan.jobs,
        vec![
            Job::Document { path: "docs/root-ns/root/index.md".into(), id: 11, order: 0 },
            Job::Document { path: "docs/root-ns/root/child.md".into(), id: 12, order: 1 },
        ]
    );
    assert_eq!(
        plan.navbar_item,
        NavbarItem { text: "Knowledge".into(), link: "/root-ns/".into(), items: None }
    );
    assert_eq!(plan.index_path, "docs/root-ns/index.md");
    assert_eq!(plan.index_content, "# Root-NS\nAll about it.");
    assert_eq!(plan.book, (42, "docs/root-ns/".to_string()));
    let index = g.article_path.get("team/kb").unwrap();
    assert_eq!(index.len(), 2);
    assert_eq!(index.get("root-slug"), Some(&"docs/root-ns/root/index.md".to_string()));
    assert_eq!(index.get("child-slug"), Some(&"docs/root-ns/root/child.md".to_string()));
}

#[test]
fn a_heading_of_the_outline_gets_a_landing_page_without_content() {
    let toc = vec![
        doc(0, "ignored", "x", 1, false),
        TocEntry::Title { level: 1, title: "Part".into(), child_uuid: "c".into() },
        doc(1, "Inside", "inside", 5, false),
    ];
    let mut g = generator_with("a b");
    let plan = g.generate_one(&namespace(true, ""), &repository(Some(toc)), &vec![]).unwrap();
    assert_eq!(
        plan.jobs,
        vec![
            Job::Heading {
                directory: "docs/root-ns/part".into(),
                header: Frontmatter {
                    title: None,
                    title_template: Some("Part".into()),
                    sidebar: "Part".into(),
                    order: 0,
                    description: None,
                    have_content: false,
                },
            },
            Job::Document { path: "docs/root-ns/part/inside.md".into(), id: 5, order: 1 },
        ]
    );
    assert_eq!(g.article_path.get("team/kb").unwrap().len(), 1);
}

#[test]
fn an_outline_that_is_missing_or_empty_has_nothing_to_write() {
    for toc in [None, Some(vec![]), Some(vec![doc(0, "only the root", "r", 1, false)])] {
        let mut g = generator_with("a b");
        let mut repo = repository(toc);
        repo.description = None;
        let plan = g.generate_one(&namespace(true, ""), &repo, &vec![]).unwrap();
        assert!(plan.jobs.is_empty());
        assert_eq!(plan.index_content, "# Root-NS\n");
        assert_eq!(g.article_path.get("team/kb").unwrap().len(), 0);
    }
}

#[test]
fn a_namespace_without_outline_lists_its_documents() {
    let docs = vec![
        DocSummary { id: 7, slug: "abc".into(), title: "First Doc".into() },
        DocSummary { id: 8, slug: "def".into(), title: "语雀".into() },
    ];
    let mut g = generator_with("a b");
    let outline = Some(vec![doc(0, "r", "r", 1, false), doc(0, "not used", "nu", 2, false)]);
    let plan = g.generate_one(&namespace(false, "true"), &repository(outline), &docs).unwrap();
    assert_eq!(
        plan.jobs,
        vec![
            Job::Document { path: "docs/root-ns/first -doc.md".into(), id: 7, order: 0 },
            Job::Document { path: "docs/root-ns/yu-que.md".into(), id: 8, order: 1 },
        ]
    );
    let index = g.article_path.get("team/kb").unwrap();
    assert_eq!(index.get("abc"), Some(&"docs/root-ns/first -doc.md".to_string()));
    assert_eq!(index.get("def"), Some(&"docs/root-ns/yu-que.md".to_string()));
    assert_eq!(index.get("nu"), None);
}

#[test]
fn writing_a_namespace_again_replaces_its_index() {
    let mut g = generator_with("a b");
    let first = vec![DocSummary { id: 7, slug: "abc".into(), title: "A".into() }];
    let second = vec![DocSummary { id: 9, slug: "xyz".into(), title: "X".into() }];
    g.generate_one(&namespace(false, ""), &repository(None), &first).unwrap();
    g.generate_one(&namespace(false, ""), &repository(None), &second).unwrap();
    let index = g.article_path.get("team/kb").unwrap();
    assert_eq!(index.len(), 1);
    assert_eq!(index.get("abc"), None);
    assert_eq!(index.get("xyz"), Some(&"docs/root-ns/x.md".to_string()));
}

fn generated(name: &str, nav: &str, id: i32) -> Generated {
    Generated {
        namespace: Namespace { target: name.into(), toc: true, text: name.into(), nav: nav.into() },
        navbar_item: NavbarItem { text: name.into(), link: format!("/{}/", name), items: None },
        book: (id, format!("docs/{}/", name)),
    }
}

fn item(name: &str) -> NavbarItem {
    NavbarItem { text: name.into(), link: format!("/{}/", name), items: None }
}

#[test]
fn the_navigation_bar_groups_the_namespaces() {
    let mut g = generator_with("a b");
    let report = g.generate_all(vec![
        generated("a", "", 1),
        generated("b", "Guides", 2),
        generated("c", "true", 3),
        generated("d", "Reference", 4),
        generated("e", "Guides", 5),
        generated("f", "", 6),
        generated("g", "true", 7),
    ]);
    assert_eq!(
        report.navbar,
        vec![
            NavbarEntry::Group { text: "Guides".into(), items: vec![item("b"), item("e")] },
            NavbarEntry::Group { text: "Reference".into(), items: vec![item("d")] },
            NavbarEntry::Item(item("c")),
            NavbarEntry::Item(item("g")),
            NavbarEntry::Group { text: "知识库".into(), items: vec![item("a"), item("f")] },
        ]
    );
    assert_eq!(g.ns_id_path.len(), 7);
    assert_eq!(g.ns_id_path[3], (4, "docs/d/".to_string()));
    assert_eq!(g.id_ns[4].0, 5);
    assert_eq!(g.id_ns[4].1.nav, "Guides");
}

#[test]
fn without_namespaces_the_navigation_bar_is_empty() {
    let mut g = generator_with("a b");
    let report = g.generate_all(vec![]);
    assert!(report.navbar.is_empty());
    assert!(report.schemas.introductions.is_empty());
    let only = g.generate_all(vec![generated("c", "true", 3)]);
    assert_eq!(only.navbar, vec![NavbarEntry::Item(item("c"))]);
}

#[test]
fn a_run_reports_the_schemas_it_found() {
    let mut g = generator_with("a b");
    let body = filter_schema("text\n---\n## 首页介绍\nHello\n", "docs/ns/a.md", &mut g.schemas);
    assert_eq!(body, "text");
    let report = g.generate_all(vec![generated("a", "", 1)]);
    assert_eq!(
        report.schemas.introductions,
        vec![SchemaEntry { content: vec!["Hello".to_string()], link: "docs/ns/a.md".into() }]
    );
    assert!(report.schemas.links.is_empty());
    assert!(report.schemas.unused.is_empty());
}

#[test]
fn the_build_command_is_split_at_its_blanks() {
    assert_eq!(
        generator_with("npm run docs:build").build(),
        Ok(BuildCommand { program: "npm".into(), args: vec!["run".into(), "docs:build".into()] })
    );
    assert_eq!(
        generator_with("make  all ").build(),
        Ok(BuildCommand { program: "make".into(), args: vec!["".into(), "all".into(), "".into()] })
    );
    assert_eq!(
        generator_with("make ").build(),
        Ok(BuildCommand { program: "make".into(), args: vec!["".into()] })
    );
    assert_eq!(
        generator_with(" x").build(),
        Ok(BuildCommand { program: "".into(), args: vec!["x".into()] })
    );
}

#[test]
fn a_build_command_without_a_blank_is_refused() {
    assert_eq!(generator_with("make").build(), Err(Error::InvalidBuildCommand("make".into())));
    assert_eq!(generator_with("").build(), Err(Error::InvalidBuildCommand("".into())));
}

#[test]
fn a_changed_knowledge_base_is_removed_and_written_again() {
    let mut g = generator_with("a b");
    g.generate_all(vec![generated("a", "", 1), generated("b", "x", 2)]);
    g.generate_all(vec![generated("a2", "", 1)]);
    assert_eq!(g.clean(2), Some("docs/b/".to_string()));
    assert_eq!(g.clean(1), Some("docs/a2/".to_string()));
    assert_eq!(g.clean(3), None);
    assert_eq!(
        g.regenerate(2),
        Some(Regeneration {
            remove: "docs/b/".into(),
            namespace: Some(Namespace { target: "b".into(), toc: true, text: "b".into(), nav: "x".into() }),
        })
    );
    assert_eq!(g.regenerate(1).unwrap().namespace.unwrap().target, "a2");
    assert_eq!(g.regenerate(9), None);
    g.id_ns.clear();
    assert_eq!(g.regenerate(2), Some(Regeneration { remove: "docs/b/".into(), namespace: None }));
}

#[test]
fn the_navigation_bar_of_placed_items() {
    let navbar = build_navbar(vec![
        ("x".to_string(), item("a")),
        (String::new(), item("b")),
        ("true".to_string(), item("c")),
        ("x".to_string(), item("d")),
        ("True".to_string(), item("e")),
    ]);
    assert_eq!(
        navbar,
        vec![
            NavbarEntry::Group { text: "x".into(), items: vec![item("a"), item("d")] },
            NavbarEntry::Group { text: "True".into(), items: vec![item("e")] },
            NavbarEntry::Item(item("c")),
            NavbarEntry::Group { text: "知识库".into(), items: vec![item("b")] },
        ]
    );
    assert!(build_navbar(vec![]).is_empty());
}
