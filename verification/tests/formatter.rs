use yuque_ssg::error::Error;
use yuque_ssg::formatter::{
    AstNode, FormatFunction, FormatFunctionWithArgs, Formatter, NodeHeading, NodeHtmlBlock,
    NodeLink, NodeValue,
};
use yuque_ssg::generator::rewrite_document;
use yuque_ssg::passes::image::ImageTable;
use yuque_ssg::passes::link::ArticlePathIndex;

fn node(id: usize, value: NodeValue, children: Vec<AstNode>) -> AstNode {
    AstNode { id, start_line: id as u32, value, children }
}

fn text(id: usize, content: &str) -> AstNode {
    node(id, NodeValue::Text(content.into()), vec![])
}

fn link(id: usize, url: &str, children: Vec<AstNode>) -> AstNode {
    node(id, NodeValue::Link(NodeLink { url: url.into(), title: "t".into() }), children)
}

fn image(id: usize, url: &str) -> AstNode {
    node(id, NodeValue::Image(NodeLink { url: url.into(), title: String::new() }), vec![])
}

fn index() -> ArticlePathIndex {
    let mut index = ArticlePathIndex::new();
    index.insert("abc".into(), "docs/ns/foo.md".into());
    index.insert("pic.svg".into(), "docs/ns/pic.md".into());
    index
}

fn svg() -> Vec<u8> {
    b"<svg></svg>".to_vec()
}

fn document() -> AstNode {
    node(
        0,
        NodeValue::Other,
        vec![
            node(1, NodeValue::Heading(NodeHeading { level: 1, setext: false }), vec![text(2, "Title")]),
            node(
                3,
                NodeValue::Other,
                vec![
                    link(4, "https://x.com/ns/abc", vec![text(5, "first"), image(6, "https://img.example.com/inside.svg")]),
                    text(7, " and "),
                    link(8, "https://x.com/ns/zzz", vec![image(9, "https://img.example.com/pic.svg")]),
                    link(10, "https://codepen.io/a/pen/b", vec![image(11, "https://img.example.com/in-pen.svg")]),
                    link(12, "relative/link", vec![]),
                ],
            ),
        ],
    )
}

#[test]
fn before_a_document_is_handed_in_every_pass_does_nothing() {
    let mut formatter = Formatter::new();
    assert_eq!(formatter.root, None);
    assert!(formatter.format(FormatFunction::ConvertCodepenLinkToIframe).is_empty());
    assert!(formatter.format_with_args(&FormatFunctionWithArgs::ConvertLink(&index())).is_empty());
    assert!(formatter.image_urls().is_empty());
    assert_eq!(formatter.root, None);
    assert_eq!(Formatter::default().root, None);
}

#[test]
fn the_link_pass_visits_parents_before_children_and_goes_on_after_errors() {
    let mut formatter = Formatter::new();
    formatter.parse(document());
    let errors = formatter.format_with_args(&FormatFunctionWithArgs::ConvertLink(&index()));
    assert_eq!(errors.len(), 3);
    assert_eq!(errors[0], Error::Internal("No such document: zzz".into()));
    assert_eq!(errors[1], Error::Internal("No such document: b".into()));
    assert!(matches!(errors[2], Error::InvalidUrl(_)));
    let root = formatter.root.unwrap();
    let paragraph = &root.children[1];
    assert_eq!(
        paragraph.children[0],
        node(
            4,
            NodeValue::Link(NodeLink { url: "/ns/foo.md".into(), title: String::new() }),
            vec![text(5, "first"), image(6, "https://img.example.com/inside.svg")]
        )
    );
    assert_eq!(paragraph.children[2], link(8, "https://x.com/ns/zzz", vec![image(9, "https://img.example.com/pic.svg")]));
    assert_eq!(root.children[0], document().children[0]);
}

#[test]
fn the_embed_pass_reports_nothing() {
    let mut formatter = Formatter::new();
    formatter.parse(document());
    assert!(formatter.format(FormatFunction::ConvertCodepenLinkToIframe).is_empty());
    let root = formatter.root.unwrap();
    let pen = &root.children[1].children[3];
    assert!(matches!(&pen.value, NodeValue::HtmlBlock(NodeHtmlBlock { block_type: 6, .. })));
    assert!(pen.children.is_empty());
    assert_eq!(root.children[1].children[0], document().children[1].children[0]);
}

#[test]
fn the_images_to_fetch_are_those_whose_address_parses() {
    let mut formatter = Formatter::new();
    formatter.parse(node(0, NodeValue::Other, vec![image(1, "https://a/1.png"), image(2, "nowhere"), link(3, "https://b", vec![image(4, "https://a/2.png")])]));
    assert_eq!(formatter.image_urls(), vec!["https://a/1.png".to_string(), "https://a/2.png".to_string()]);
}

#[test]
fn the_image_pass_reports_each_image_it_could_not_inline() {
    let mut table = ImageTable::new();
    table.insert("https://img.example.com/pic.svg".into(), Ok(svg()));
    let mut formatter = Formatter::new();
    formatter.parse(document());
    let errors = formatter.format_with_args(&FormatFunctionWithArgs::ConvertImageToBase64(&table));
    assert_eq!(
        errors,
        vec![
            Error::Internal("No image data: https://img.example.com/inside.svg".into()),
            Error::Internal("No image data: https://img.example.com/in-pen.svg".into()),
        ]
    );
    let root = formatter.root.unwrap();
    assert_eq!(
        root.children[1].children[2].children[0],
        node(9, NodeValue::HtmlBlock(NodeHtmlBlock { block_type: 7, literal: svg() }), vec![])
    );
}

#[test]
fn the_passes_of_a_document_run_in_their_order() {
    let mut table = ImageTable::new();
    table.insert("https://img.example.com/pic.svg".into(), Ok(svg()));
    table.insert("https://img.example.com/inside.svg".into(), Ok(svg()));
    let (tree, unresolved) = rewrite_document(document(), &table, &index()).unwrap();
    assert_eq!(unresolved.len(), 2);
    assert_eq!(unresolved[0], Error::Internal("No such document: zzz".into()));
    assert!(matches!(unresolved[1], Error::InvalidUrl(_)));
    let paragraph = &tree.children[1];
    assert_eq!(
        paragraph.children[0],
        node(
            4,
            NodeValue::Link(NodeLink { url: "/ns/foo.md".into(), title: String::new() }),
            vec![
                text(5, "first"),
                node(6, NodeValue::HtmlBlock(NodeHtmlBlock { block_type: 7, literal: svg() }), vec![]),
            ]
        )
    );
    assert_eq!(
        paragraph.children[2].children[0],
        node(9, NodeValue::HtmlBlock(NodeHtmlBlock { block_type: 7, literal: svg() }), vec![])
    );
    assert!(matches!(&paragraph.children[3].value, NodeValue::HtmlBlock(NodeHtmlBlock { block_type: 6, .. })));
    assert!(paragraph.children[3].children.is_empty());
    assert_eq!(paragraph.children[4], link(12, "relative/link", vec![]));
    assert_eq!(tree.children[0], document().children[0]);
}

#[test]
fn an_image_below_an_embed_is_never_asked_for() {
    let mut table = ImageTable::new();
    table.insert("https://img.example.com/pic.svg".into(), Ok(svg()));
    table.insert("https://img.example.com/inside.svg".into(), Ok(svg()));
    assert!(rewrite_document(document(), &table, &index()).is_ok());
}

#[test]
fn the_first_image_that_fails_fails_the_document() {
    let mut table = ImageTable::new();
    table.insert("https://img.example.com/inside.svg".into(), Err(Error::Reqwest("first".into())));
    table.insert("https://img.example.com/pic.svg".into(), Err(Error::Reqwest("second".into())));
    assert_eq!(rewrite_document(document(), &table, &index()), Err(Error::Reqwest("first".into())));
    assert_eq!(
        rewrite_document(document(), &ImageTable::new(), &index()),
        Err(Error::Internal("No image data: https://img.example.com/inside.svg".into()))
    );
}

#[test]
fn a_document_without_links_and_images_stays() {
    let plain = node(0, NodeValue::Other, vec![text(1, "a"), node(2, NodeValue::Other, vec![text(3, "b")])]);
    let same = node(0, NodeValue::Other, vec![text(1, "a"), node(2, NodeValue::Other, vec![text(3, "b")])]);
    assert_eq!(rewrite_document(plain, &ImageTable::new(), &ArticlePathIndex::new()), Ok((same, vec![])));
}
