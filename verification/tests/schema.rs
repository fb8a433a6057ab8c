use yuque_ssg::error::Error;
use yuque_ssg::formatter::{AstNode, NodeHeading, NodeHtmlBlock, NodeValue};
use yuque_ssg::schema::{
    aggregate_schemas, filter_schema, parse_schema, parse_schema_start_line, schema_key,
    split_document, Schema, SchemaEntry, SchemaTable, UnusedKeys,
};

fn lines(values: &[&str]) -> Vec<String> {
    values.iter().map(|v| v.to_string()).collect()
}

#[test]
fn the_block_behind_the_delimiter_is_the_schema() {
    let mut table = SchemaTable::new();
    let body = filter_schema("text\n---\n## 首页介绍\nHello\n", "docs/ns/a.md", &mut table);
    assert_eq!(body, "text");
    assert_eq!(table.len(), 1);
    let schema = table.get("docs/ns/a.md").unwrap();
    assert_eq!(schema.len(), 1);
    assert_eq!(schema.get("首页介绍"), Some(&lines(&["Hello"])));
}

#[test]
fn a_document_without_delimiter_comes_back_whole() {
    let mut table = SchemaTable::new();
    let text = "# Title\n\nsome -- dashes --- inside a line\n----\n";
    assert_eq!(filter_schema(text, "docs/ns/a.md", &mut table), text);
    assert_eq!(table.len(), 0);
    assert!(table.get("docs/ns/a.md").is_none());
}

#[test]
fn the_last_delimiter_line_splits() {
    let (body, block) = split_document("a\n---\nb\n---\n## k\nv");
    assert_eq!(body, "a\n---\nb");
    assert_eq!(block, Some("## k\nv".to_string()));
}

#[test]
fn line_endings_with_carriage_return_split_too() {
    let (body, block) = split_document("a\r\nb\r\n---\r\n## k\r\nv\r\n");
    assert_eq!(body, "a\r\nb");
    assert_eq!(block, Some("## k\r\nv\r\n".to_string()));
    let schema = parse_schema(block.unwrap().as_str());
    assert_eq!(schema.get("k"), Some(&lines(&["v"])));
}

#[test]
fn a_delimiter_on_the_first_or_the_last_line() {
    assert_eq!(split_document("---\n## k\nv"), (String::new(), Some("## k\nv".to_string())));
    assert_eq!(split_document("body\n---"), ("body".to_string(), Some(String::new())));
    assert_eq!(split_document("---"), (String::new(), Some(String::new())));
    assert_eq!(split_document(""), (String::new(), None));
}

#[test]
fn dashes_with_anything_beside_them_are_no_delimiter() {
    for text in ["a\n--- \nb", "a\n ---\nb", "a\n----\nb", "a---\nb", "a\n--\nb", "|---|---|"] {
        assert_eq!(split_document(text), (text.to_string(), None));
    }
}

#[test]
fn a_second_line_under_a_key_is_dropped() {
    let schema = parse_schema("## key\nfirst\nsecond\n");
    assert_eq!(schema.len(), 1);
    assert_eq!(schema.get("key"), Some(&lines(&["first"])));
}

#[test]
fn empty_lines_and_anchor_lines_change_nothing() {
    let schema = parse_schema("## key\n\n<a name=\"x\"></a>\nsee <a href=\"y\">this</a>\nvalue\n");
    assert_eq!(schema.get("key"), Some(&lines(&["value"])));
    let other = parse_schema("<a id=\"k\">## hidden</a>\n## shown\nv");
    assert_eq!(other.len(), 1);
    assert_eq!(other.get("shown"), Some(&lines(&["v"])));
}

#[test]
fn a_tag_that_is_not_closed_is_no_anchor() {
    let schema = parse_schema("## key\n<a href\n");
    assert_eq!(schema.get("key"), Some(&lines(&["<a href"])));
    let schema = parse_schema("## key\n> <a \n");
    assert_eq!(schema.get("key"), Some(&lines(&["> <a "])));
}

#[test]
fn a_section_without_a_line_is_not_in_the_schema() {
    let schema = parse_schema("## empty\n## full\nv\n## last\n");
    assert_eq!(schema.len(), 1);
    assert_eq!(schema.get("empty"), None);
    assert_eq!(schema.get("last"), None);
    assert_eq!(schema.get("full"), Some(&lines(&["v"])));
}

#[test]
fn a_key_that_opens_again_starts_empty() {
    assert_eq!(parse_schema("## a\nfirst\n## a\nsecond\n").get("a"), Some(&lines(&["second"])));
    assert_eq!(parse_schema("## a\nfirst\n## a\n").len(), 0);
}

#[test]
fn a_line_without_an_open_key_is_dropped() {
    assert_eq!(parse_schema("stray\n## a\nv\nstray again\n").len(), 1);
    assert_eq!(parse_schema("").len(), 0);
    assert_eq!(parse_schema("##\nvalue\n").len(), 0);
}

#[test]
fn the_key_is_what_follows_the_hashes_without_white_space() {
    assert_eq!(parse_schema("##   spaced out  \nv").get("spaced out"), Some(&lines(&["v"])));
    assert_eq!(parse_schema("####four\nv").get("four"), Some(&lines(&["v"])));
    assert_eq!(parse_schema("###three\nv").get("#three"), Some(&lines(&["v"])));
    assert_eq!(parse_schema("##\u{3000}wide\u{a0}\nv").get("wide"), Some(&lines(&["v"])));
}

#[test]
fn a_value_keeps_its_white_space() {
    assert_eq!(parse_schema("## k\n  v  \n").get("k"), Some(&lines(&["  v  "])));
    assert_eq!(parse_schema("## k\n \n").get("k"), Some(&lines(&[" "])));
}

#[test]
fn sections_keep_the_order_in_which_they_came() {
    let schema = parse_schema("## b\n1\n## a\n2\n");
    assert_eq!(schema.key(0), Some(&"b".to_string()));
    assert_eq!(schema.key(1), Some(&"a".to_string()));
    assert_eq!(schema.values(1), Some(&lines(&["2"])));
    assert_eq!(schema.key(2), None);
    assert_eq!(schema.values(2), None);
}

#[test]
fn a_schema_filed_twice_under_one_path_is_replaced() {
    let mut table = SchemaTable::new();
    filter_schema("x\n---\n## a\n1", "p", &mut table);
    filter_schema("x\n---\n## b\n2", "q", &mut table);
    filter_schema("x\n---\n## c\n3", "p", &mut table);
    assert_eq!(table.len(), 2);
    assert_eq!(table.path(0), Some(&"p".to_string()));
    assert_eq!(table.get("p").unwrap().get("c"), Some(&lines(&["3"])));
    assert_eq!(table.get("p").unwrap().get("a"), None);
    assert_eq!(table.schema(1).unwrap().get("b"), Some(&lines(&["2"])));
    assert!(table.schema(2).is_none());
}

#[test]
fn the_report_gathers_the_two_sections_of_the_landing_page() {
    let mut table = SchemaTable::new();
    filter_schema("x\n---\n## 首页介绍\nintro one\n## other\nv\n", "docs/a.md", &mut table);
    filter_schema("x\n---\n## 首页链接\nlink two\n", "docs/b.md", &mut table);
    filter_schema("x\n---\n## 首页介绍\nintro three\n## 首页链接\nlink three\n## x\n1\n## y\n2\n", "docs/c.md", &mut table);
    let report = aggregate_schemas(&table);
    assert_eq!(
        report.introductions,
        vec![
            SchemaEntry { content: lines(&["intro one"]), link: "docs/a.md".into() },
            SchemaEntry { content: lines(&["intro three"]), link: "docs/c.md".into() },
        ]
    );
    assert_eq!(
        report.links,
        vec![
            SchemaEntry { content: lines(&["link two"]), link: "docs/b.md".into() },
            SchemaEntry { content: lines(&["link three"]), link: "docs/c.md".into() },
        ]
    );
    assert_eq!(
        report.unused,
        vec![
            UnusedKeys { link: "docs/a.md".into(), keys: lines(&["other"]) },
            UnusedKeys { link: "docs/c.md".into(), keys: lines(&["x", "y"]) },
        ]
    );
}

#[test]
fn the_report_of_no_documents_is_empty() {
    let report = aggregate_schemas(&SchemaTable::new());
    assert!(report.introductions.is_empty() && report.links.is_empty() && report.unused.is_empty());
}

#[test]
fn a_schema_is_built_by_hand_like_a_map() {
    let mut schema = Schema::new();
    schema.insert("k".into(), lines(&["a"]));
    schema.insert("k".into(), lines(&["b", "c"]));
    assert_eq!(schema.len(), 1);
    assert_eq!(schema.get("k"), Some(&lines(&["b", "c"])));
}

fn sibling(start_line: u32, value: NodeValue, children: usize) -> AstNode {
    AstNode {
        id: 0,
        start_line,
        value,
        children: (0..children).map(|i| AstNode::new(i, NodeValue::Other)).collect(),
    }
}

#[test]
fn a_schema_starts_on_the_line_of_its_key() {
    let rule = || NodeValue::HtmlBlock(NodeHtmlBlock { block_type: 7, literal: b"<hr />".to_vec() });
    let html = || NodeValue::HtmlBlock(NodeHtmlBlock { block_type: 7, literal: b"<div>".to_vec() });
    let heading = |level| NodeValue::Heading(NodeHeading { level, setext: false });
    let full = vec![sibling(1, rule(), 0), sibling(5, heading(2), 1), sibling(6, NodeValue::Other, 0)];
    let mut line = 99;
    assert_eq!(parse_schema_start_line(&full, 0, &mut line), Ok(()));
    assert_eq!(line, 5);
    let mut line = 99;
    assert_eq!(parse_schema_start_line(&full, 1, &mut line), Err(Error::InvalidSchema("expected attribution".into())));
    assert_eq!(parse_schema_start_line(&full, 2, &mut line), Err(Error::InvalidSchema("expected attribution".into())));
    let short = vec![sibling(1, rule(), 0), sibling(5, heading(2), 1)];
    assert_eq!(parse_schema_start_line(&short, 0, &mut line), Err(Error::InvalidSchema("expected value".into())));
    assert_eq!(parse_schema_start_line(&full, 3, &mut line), Ok(()));
    assert_eq!(line, 99);
    let other = vec![sibling(1, html(), 0)];
    assert_eq!(parse_schema_start_line(&other, 0, &mut line), Ok(()));
    let third = vec![sibling(1, rule(), 0), sibling(5, heading(3), 0)];
    assert_eq!(parse_schema_start_line(&third, 0, &mut line), Ok(()));
    let childless = vec![sibling(1, rule(), 0), sibling(5, heading(2), 0), sibling(6, NodeValue::Other, 0)];
    assert_eq!(parse_schema_start_line(&childless, 0, &mut line), Err(Error::InvalidSchema("expected attribution".into())));
    let plain = vec![sibling(1, NodeValue::Other, 0), sibling(7, NodeValue::Other, 2), sibling(8, NodeValue::Other, 0)];
    assert_eq!(parse_schema_start_line(&plain, 0, &mut line), Ok(()));
    assert_eq!(line, 7);
}

#[test]
fn a_schema_is_filed_under_the_path_below_the_output_directory() {
    assert_eq!(schema_key("docs/ns/a/b.md"), "ns/a/b.md");
    assert_eq!(schema_key("docs/"), "");
    assert_eq!(schema_key("docs"), "docs");
    assert_eq!(schema_key("elsewhere/docs/a.md"), "elsewhere/docs/a.md");
    assert_eq!(schema_key(""), "");
    let mut table = SchemaTable::new();
    filter_schema("x\n---\n## k\nv", &schema_key("docs/ns/a.md"), &mut table);
    assert_eq!(table.path(0), Some(&"ns/a.md".to_string()));
}
