use yuque_ssg::config::{CheckedGeneratorConfig, Namespace};
use yuque_ssg::error::Error;
use yuque_ssg::formatter::{AstNode, NodeHtmlBlock, NodeLink, NodeValue};
use yuque_ssg::generator::{DocSummary, Generator, Job, Repository};
use yuque_ssg::passes::address::UrlParts;
use yuque_ssg::passes::embed::embed_link;
use yuque_ssg::passes::image::{base64_data_uri, plan_image, png_data_uri, ImagePlan, ImageTable};
use yuque_ssg::passes::link::{resolve_link, ArticlePathIndex};
use yuque_ssg::text::{
    chars_of, contains_chars, has_prefix, join_chars, last_segment_of, lowercase, split_lines,
    string_of, trim_chars, trim_flagged,
};
use yuque_ssg::toc::generate::{lowercase_links, sidebar_tree, walk_tree, DirEntry, FileKind};
use yuque_ssg::toc::parse::{hyphenate, resolve_paths, segments_of, sounds_of, TocEntry};
use yuque_ssg::toc::{Frontmatter, SidebarItem};

fn chars(text: &str) -> Vec<char> {
    text.chars().collect()
}

fn texts(parts: &[Vec<char>]) -> Vec<String> {
    parts.iter().map(|p| p.iter().collect()).collect()
}

#[test]
fn segments_for_given_sounds() {
    let sounds = vec![None, Some("x".to_string()), Some("yy".to_string()), None, None];
    assert_eq!(texts(&segments_of(&chars("a12bc"), &sounds)), vec!["a", "x", "yy", "bc"]);
    assert_eq!(texts(&segments_of(&chars("abc"), &vec![])), vec!["abc"]);
    assert_eq!(texts(&segments_of(&chars("abc"), &vec![Some("s".to_string())])), vec!["s", "bc"]);
    assert!(segments_of(&chars(""), &vec![Some("s".to_string())]).is_empty());
    assert_eq!(texts(&segments_of(&chars("ab"), &vec![None, Some(String::new())])), vec!["a", ""]);
}

#[test]
fn the_table_is_asked_for_characters_of_the_script_only() {
    assert_eq!(
        sounds_of(&chars("a中の文")),
        vec![None, Some("zhong".to_string()), None, Some("wen".to_string())]
    );
}

#[test]
fn a_hyphen_goes_before_every_capital_but_the_first_character() {
    let split = |t: &str| -> String { hyphenate(&chars(t)).iter().collect() };
    assert_eq!(split("MyTitle"), "My-Title");
    assert_eq!(split("myTitle"), "my-Title");
    assert_eq!(split("ABC"), "A-B-C");
    assert_eq!(split("-A"), "--A");
    assert_eq!(split("É"), "É");
    assert_eq!(split(""), "");
}

#[test]
fn paths_for_given_names() {
    let toc = vec![
        TocEntry::Doc { level: 1, title: "Root".into(), child_uuid: "c".into(), id: 1, url: "r".into() },
        TocEntry::Doc { level: 1, title: "Child".into(), child_uuid: String::new(), id: 2, url: "c".into() },
        TocEntry::Title { level: 0, title: "Other".into(), child_uuid: String::new() },
    ];
    let names = vec!["one".to_string(), "two".to_string()];
    let paths: Vec<String> = resolve_paths("ns", &toc, &names).iter().map(|p| p.path()).collect();
    assert_eq!(paths, vec!["docs/ns/one/index.md", "docs/ns/one/two.md", "docs/ns"]);
    let unnamed: Vec<String> = resolve_paths("ns", &toc, &vec![]).iter().map(|p| p.path()).collect();
    assert_eq!(unnamed, vec!["docs/ns//index.md", "docs/ns//.md", "docs/ns"]);
}

fn link(url: &str) -> AstNode {
    AstNode {
        id: 1,
        start_line: 0,
        value: NodeValue::Link(NodeLink { url: url.into(), title: "t".into() }),
        children: vec![AstNode::new(2, NodeValue::Other), AstNode::new(3, NodeValue::Other)],
    }
}

fn parts(domain: Option<&str>, path: &str) -> Result<UrlParts, String> {
    Ok(UrlParts { domain: domain.map(|d| d.to_string()), path: path.into() })
}

#[test]
fn a_link_is_resolved_from_what_was_parsed_of_it() {
    let mut index = ArticlePathIndex::new();
    index.insert("abc".into(), "docs/ns/foo.md".into());
    let mut node = link("whatever the text was");
    assert_eq!(resolve_link(&mut node, parts(Some("x.com"), "/ns/abc"), &index), Ok(()));
    assert_eq!(node.value, NodeValue::Link(NodeLink { url: "/ns/foo.md".into(), title: String::new() }));
    assert_eq!(node.children, vec![AstNode::new(2, NodeValue::Other), AstNode::new(3, NodeValue::Other)]);

    let mut node = link("u");
    assert_eq!(
        resolve_link(&mut node, Err("relative URL without a base".into()), &index),
        Err(Error::InvalidUrl("relative URL without a base".into()))
    );
    assert_eq!(resolve_link(&mut node, parts(None, "/ns/abc"), &index), Err(Error::Internal("Invalid url: u".into())));
    assert_eq!(resolve_link(&mut node, parts(Some("x.com"), "//"), &index), Err(Error::Internal("Invalid url path: u".into())));
    assert_eq!(resolve_link(&mut node, parts(Some("x.com"), "/a/b/"), &index), Err(Error::Internal("No such document: b".into())));
    assert_eq!(node, link("u"));
    let mut other = AstNode::new(5, NodeValue::Text("x".into()));
    assert_eq!(resolve_link(&mut other, parts(Some("x.com"), "/ns/abc"), &index), Ok(()));
    assert_eq!(other, AstNode::new(5, NodeValue::Text("x".into())));
}

#[test]
fn a_link_is_embedded_from_what_was_parsed_of_it() {
    let mut node = link("https://example.org/pen");
    embed_link(&mut node, &parts(Some("my.codepen.example"), "/pen"));
    assert!(matches!(&node.value, NodeValue::HtmlBlock(NodeHtmlBlock { block_type: 6, .. })));
    assert!(node.children.is_empty());
    for parsed in [parts(Some("codepe.n"), "/codepen"), parts(None, "/"), Err("codepen".to_string())] {
        let mut node = link("https://codepen.io/pen");
        embed_link(&mut node, &parsed);
        assert_eq!(node, link("https://codepen.io/pen"));
    }
}

#[test]
fn the_plan_for_an_image() {
    let image = |url: &str| AstNode {
        id: 1,
        start_line: 0,
        value: NodeValue::Image(NodeLink { url: url.into(), title: String::new() }),
        children: vec![],
    };
    let mut table = ImageTable::new();
    table.insert("v".into(), Ok(b"<svg/>".to_vec()));
    table.insert("r".into(), Ok(b"\x89PNG".to_vec()));
    table.insert("e".into(), Err(Error::Reqwest("gone".into())));
    let ok = parts(Some("x.com"), "/");
    assert_eq!(plan_image(&image("v"), &ok, &table), ImagePlan::Vector(b"<svg/>".to_vec()));
    assert_eq!(plan_image(&image("r"), &ok, &table), ImagePlan::Raster(b"\x89PNG".to_vec()));
    assert_eq!(plan_image(&image("e"), &ok, &table), ImagePlan::Fail(Error::Reqwest("gone".into())));
    assert_eq!(plan_image(&image("m"), &ok, &table), ImagePlan::Fail(Error::Internal("No image data: m".into())));
    assert_eq!(plan_image(&image("v"), &Err("bad".into()), &table), ImagePlan::Fail(Error::InvalidUrl("bad".into())));
    assert_eq!(plan_image(&link("v"), &ok, &table), ImagePlan::Leave);
}

#[test]
fn the_address_of_a_written_png() {
    assert_eq!(png_data_uri(Err("no image".into())), Err(Error::Image("no image".into())));
    assert_eq!(png_data_uri(Ok(b"hello world~".to_vec())), Ok("data:image/png;base64,aGVsbG8gd29ybGR+".to_string()));
    assert_eq!(png_data_uri(Ok(vec![])), Ok("data:image/png;base64,".to_string()));
    assert_eq!(png_data_uri(Ok(vec![0])), Ok("data:image/png;base64,AA==".to_string()));
    assert_eq!(base64_data_uri("QUJD"), "data:image/png;base64,QUJD");
}

fn header(sidebar: &str, order: u32) -> Result<Frontmatter, Error> {
    Ok(Frontmatter {
        title: None,
        title_template: None,
        sidebar: sidebar.to_string(),
        order,
        description: None,
        have_content: true,
    })
}

fn file(name: &str, order: u32) -> DirEntry {
    DirEntry { name: name.into(), kind: FileKind::File, header: header(name, order), entries: vec![] }
}

#[test]
fn the_walk_writes_links_as_the_names_are() {
    let dir = DirEntry {
        name: "Guide".into(),
        kind: FileKind::Directory,
        header: header("G", 1),
        entries: vec![file("B.md", 2), file("A.md", 1)],
    };
    let items = walk_tree(&vec![dir], "NS").unwrap();
    assert_eq!(items[0].link, "/NS/Guide/");
    let below = items[0].items.as_ref().unwrap();
    assert_eq!(below[0].link, "/NS/Guide/A.html");
    assert_eq!(below[1].link, "/NS/Guide/B.html");
    let lowered = lowercase_links(items);
    assert_eq!(lowered[0].link, "/ns/guide/");
    assert_eq!(lowered[0].items.as_ref().unwrap()[1].link, "/ns/guide/b.html");
    assert_eq!(lowered[0].text, "G");
}

#[test]
fn the_sidebar_for_given_root_links() {
    let root = vec![
        DirEntry { name: "A".into(), kind: FileKind::Directory, header: header("", 0), entries: vec![file("X.md", 1)] },
        file("skipped.md", 0),
        DirEntry { name: "B".into(), kind: FileKind::Directory, header: header("", 0), entries: vec![file("Y.md", 1)] },
        DirEntry { name: "C".into(), kind: FileKind::Directory, header: header("", 0), entries: vec![] },
    ];
    let links = vec!["/same/".to_string(), "unused".to_string(), "/same/".to_string()];
    let sidebar = sidebar_tree(&root, &links).unwrap();
    assert_eq!(sidebar.len(), 2);
    assert_eq!(
        sidebar.get("/same/"),
        Some(&vec![SidebarItem { text: "Y.md".into(), link: "/B/Y.html".into(), items: None, collapsed: None, order: 1 }])
    );
    assert_eq!(sidebar.get(""), Some(&vec![]));
    let lowered = sidebar.lowercase_links();
    assert_eq!(lowered.link(0), Some(&"/same/".to_string()));
    assert_eq!(lowered.items(0).unwrap()[0].link, "/b/y.html");
}

#[test]
fn trimming_by_flags() {
    let trim = |t: &str, flags: &[bool]| -> String { trim_flagged(&chars(t), &flags.to_vec()).iter().collect() };
    assert_eq!(trim("abcde", &[true, true, false, true, true]), "c");
    assert_eq!(trim("abcde", &[true, false, true, false, true]), "bcd");
    assert_eq!(trim("abcde", &[true, true, true, true, true]), "");
    assert_eq!(trim("abcde", &[true, true]), "cde");
    assert_eq!(trim("abcde", &[]), "abcde");
    assert_eq!(trim("", &[true]), "");
    let white: String = trim_chars(&chars(" \t\u{a0}x y\u{2003}\n")).iter().collect();
    assert_eq!(white, "x y");
}

#[test]
fn white_space_is_what_the_character_type_says_it_is() {
    let stated = |c: char| {
        matches!(
            c,
            '\u{9}'..='\u{d}'
                | ' '
                | '\u{85}'
                | '\u{a0}'
                | '\u{1680}'
                | '\u{2000}'..='\u{200a}'
                | '\u{2028}'
                | '\u{2029}'
                | '\u{202f}'
                | '\u{205f}'
                | '\u{3000}'
        )
    };
    let mut white = 0;
    for code in 0..=0x10ffffu32 {
        if let Some(c) = char::from_u32(code) {
            assert_eq!(c.is_whitespace(), stated(c), "U+{:04X}", code);
            if stated(c) {
                white += 1;
                assert!(trim_chars(&vec![c, 'x', c]) == vec!['x']);
            }
        }
    }
    assert_eq!(white, 25);
    assert_eq!(trim_chars(&vec!['\u{200b}', 'x', '\u{feff}']), vec!['\u{200b}', 'x', '\u{feff}']);
}

#[test]
fn the_plan_of_a_namespace_for_a_given_directory_and_given_names() {
    let mut g = Generator::from_config(CheckedGeneratorConfig {
        host: "h".into(),
        token: "t".into(),
        namespaces: vec![],
        build_command: "a b".into(),
    });
    let ns = Namespace { target: "t".into(), toc: false, text: "T".into(), nav: String::new() };
    let repo = Repository { id: 1, name: "Name".into(), namespace: "n".into(), description: None, toc: None };
    let docs = vec![
        DocSummary { id: 7, slug: "s1".into(), title: "ignored".into() },
        DocSummary { id: 8, slug: "s2".into(), title: "ignored".into() },
    ];
    let plan = g.plan_namespace(&ns, &repo, &docs, "dir", &vec!["first".to_string()]).unwrap();
    assert_eq!(
        plan.jobs,
        vec![
            Job::Document { path: "docs/dir/first.md".into(), id: 7, order: 0 },
            Job::Document { path: "docs/dir/.md".into(), id: 8, order: 1 },
        ]
    );
    assert_eq!(plan.navbar_item.link, "/dir/");
    assert_eq!(plan.index_path, "docs/dir/index.md");
    assert_eq!(plan.book, (1, "docs/dir/".to_string()));
    assert_eq!(g.article_path.get("n").unwrap().get("s2"), Some(&"docs/dir/.md".to_string()));
}

#[test]
fn texts_as_characters() {
    assert_eq!(chars_of("añ中"), vec!['a', 'ñ', '中']);
    assert_eq!(string_of(&vec!['a', 'ñ', '中']), "añ中");
    assert!(has_prefix(&chars("abc"), &chars("ab")));
    assert!(has_prefix(&chars("abc"), &chars("")));
    assert!(!has_prefix(&chars("ab"), &chars("abc")));
    assert!(contains_chars(&chars("my.codepen.io"), &chars("codepen")));
    assert!(contains_chars(&chars("x"), &chars("")));
    assert!(!contains_chars(&chars("codepe"), &chars("codepen")));
    let joined: String = join_chars(&vec![chars("a"), chars(""), chars("bc")], &chars("--")).iter().collect();
    assert_eq!(joined, "a----bc");
    assert!(join_chars(&vec![], &chars("-")).is_empty());
    let lower: String = lowercase(&chars("ÀB ǅ")).iter().collect();
    assert_eq!(lower, "àb ǆ");
}

#[test]
fn lines_end_at_line_feeds() {
    let lines = |t: &str| texts(&split_lines(&chars(t)));
    assert_eq!(lines("a\nb"), vec!["a", "b"]);
    assert_eq!(lines("a\nb\n"), vec!["a", "b"]);
    assert_eq!(lines("a\r\nb\r"), vec!["a", "b\r"]);
    assert_eq!(lines("\n\na\r\r\n"), vec!["", "", "a\r"]);
    assert!(lines("").is_empty());
    for text in ["a\nb", "a\nb\n", "a\r\nb\r", "\n\na\r\r\n", "", "\r\n", "x\n\n"] {
        assert_eq!(lines(text), text.lines().collect::<Vec<_>>());
    }
}

#[test]
fn the_last_part_of_a_path() {
    let last = |t: &str| last_segment_of(&chars(t)).map(|s| s.iter().collect::<String>());
    assert_eq!(last("/ns/abc"), Some("abc".to_string()));
    assert_eq!(last("/ns/abc///"), Some("abc".to_string()));
    assert_eq!(last("abc"), Some("abc".to_string()));
    assert_eq!(last("/"), None);
    assert_eq!(last(""), None);
}
