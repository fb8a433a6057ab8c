//! A markdown document as a tree in which each node owns its children, and
//! the passes that rewrite it: every node visited once, parent before
//! children, and after a node was changed the walk goes on into the children
//! that it kept.

use vstd::prelude::*;
use crate::error::{Error, ErrorView};
use crate::passes::address::{parses_as_url, url_parse};
use crate::passes::embed::{convert_codepen_link_to_iframe, visit_embed};
use crate::passes::image::{convert_image_to_base64, visit_image, ImageTable};
use crate::passes::link::{convert_link, visit_link, ArticlePathIndex};
use crate::text::string_views;

verus! {

/// The target and the title of a link or an image.
#[derive(Debug, PartialEq, Eq)]
pub struct NodeLink {
    pub url: String,
    pub title: String,
}

/// A block of literal HTML.
#[derive(Debug, PartialEq, Eq)]
pub struct NodeHtmlBlock {
    pub block_type: u8,
    pub literal: Vec<u8>,
}

/// A heading and how it was written.
#[derive(Debug, PartialEq, Eq)]
pub struct NodeHeading {
    pub level: u32,
    pub setext: bool,
}

/// What a node is. The kinds that no pass reads are all `Other`.
#[derive(Debug, PartialEq, Eq)]
pub enum NodeValue {
    Text(String),
    Link(NodeLink),
    Image(NodeLink),
    HtmlBlock(NodeHtmlBlock),
    Heading(NodeHeading),
    Other,
}

/// A node of the document. `id` is the place of the node in the parsed
/// document and stays with it when a pass changes what the node is;
/// `start_line` is the source line on which it begins.
#[derive(Debug, PartialEq, Eq)]
pub struct AstNode {
    pub id: usize,
    pub start_line: u32,
    pub value: NodeValue,
    pub children: Vec<AstNode>,
}

/// What a node is, with its texts as sequences.
pub enum NodeValueView {
    Text(Seq<char>),
    Link { url: Seq<char>, title: Seq<char> },
    Image { url: Seq<char>, title: Seq<char> },
    HtmlBlock { block_type: u8, literal: Seq<u8> },
    Heading { level: u32, setext: bool },
    Other,
}

/// A node with everything below it, as a mathematical tree.
pub struct AstNodeView {
    pub id: usize,
    pub start_line: u32,
    pub value: NodeValueView,
    pub children: Seq<AstNodeView>,
}

impl View for NodeValue {
    type V = NodeValueView;

    open spec fn view(&self) -> NodeValueView {
        match *self {
            NodeValue::Text(t) => NodeValueView::Text(t@),
            NodeValue::Link(l) => NodeValueView::Link { url: l.url@, title: l.title@ },
            NodeValue::Image(l) => NodeValueView::Image { url: l.url@, title: l.title@ },
            NodeValue::HtmlBlock(h) => NodeValueView::HtmlBlock {
                block_type: h.block_type,
                literal: h.literal@,
            },
            NodeValue::Heading(h) => NodeValueView::Heading { level: h.level, setext: h.setext },
            NodeValue::Other => NodeValueView::Other,
        }
    }
}

/// The tree below a node.
pub open spec fn node_view(n: AstNode) -> AstNodeView
    decreases n,
{
    AstNodeView {
        id: n.id,
        start_line: n.start_line,
        value: n.value@,
        children: Seq::new(
            n.children@.len(),
            |i: int|
                if 0 <= i < n.children@.len() {
                    node_view(n.children@[i])
                } else {
                    arbitrary()
                },
        ),
    }
}

impl View for AstNode {
    type V = AstNodeView;

    open spec fn view(&self) -> AstNodeView {
        node_view(*self)
    }
}

/// The trees below a sequence of nodes.
pub open spec fn node_views(nodes: Seq<AstNode>) -> Seq<AstNodeView> {
    Seq::new(nodes.len(), |i: int| nodes[i]@)
}

/// The children of a node's tree are the trees of its children.
pub proof fn lemma_children_view(n: AstNode)
    ensures
        n@.children == node_views(n.children@),
        n@.id == n.id,
        n@.start_line == n.start_line,
        n@.value == n.value@,
{
    assert(n@.children =~= node_views(n.children@));
}

impl AstNode {
    /// A node without children.
    pub fn new(id: usize, value: NodeValue) -> (r: AstNode)
        ensures
            r.id == id,
            r.start_line == 0,
            r.value == value,
            r.children@.len() == 0,
    {
        AstNode { id, start_line: 0, value, children: Vec::new() }
    }
}

/// Which of its children a node keeps when a pass has visited it.
pub enum Keep {
    Every,
    Nothing,
}

impl Keep {
    /// How many of `n` children stay.
    pub open spec fn count(self, n: int) -> int {
        match self {
            Keep::Every => n,
            Keep::Nothing => 0,
        }
    }
}

/// What a pass does to one node: what the node then is, which children it
/// keeps, and the error that the visit gave, if any.
pub struct Visit {
    pub value: NodeValueView,
    pub keep: Keep,
    pub error: Option<ErrorView>,
}

/// A visit that leaves the node as it is.
pub open spec fn untouched(n: AstNodeView) -> Visit {
    Visit { value: n.value, keep: Keep::Every, error: None }
}

/// A visit that leaves the node as it is and gives an error.
pub open spec fn refused(n: AstNodeView, e: ErrorView) -> Visit {
    Visit { value: n.value, keep: Keep::Every, error: Some(e) }
}

/// A node after a visit, its kept children not yet visited.
pub open spec fn visited(n: AstNodeView, v: Visit) -> AstNodeView {
    AstNodeView {
        id: n.id,
        start_line: n.start_line,
        value: v.value,
        children: n.children.take(v.keep.count(n.children.len() as int)),
    }
}

/// Whether the result of a visit is the one that the pass describes.
pub open spec fn outcome_is(r: Result<(), Error>, v: Visit) -> bool {
    match r {
        Ok(_) => v.error is None,
        Err(e) => v.error == Some(e@),
    }
}

// ---------------------------------------------------------------------------
// Passes

/// A pass that needs nothing but the node.
pub enum FormatFunction {
    /// Links to the widget provider become widgets.
    ConvertCodepenLinkToIframe,
}

/// A pass that reads a table beside the node.
pub enum FormatFunctionWithArgs<'a> {
    /// Remote images are inlined from what was fetched for them.
    ConvertImageToBase64(&'a ImageTable),
    /// Links to other documents are pointed at the files of those.
    ConvertLink(&'a ArticlePathIndex),
}

/// A pass as the contracts speak of it.
pub enum Pass {
    Embed,
    Images(Seq<(Seq<char>, Result<Seq<u8>, ErrorView>)>),
    Links(Seq<(Seq<char>, Seq<char>)>),
}

impl View for FormatFunction {
    type V = Pass;

    open spec fn view(&self) -> Pass {
        Pass::Embed
    }
}

impl<'a> View for FormatFunctionWithArgs<'a> {
    type V = Pass;

    open spec fn view(&self) -> Pass {
        match *self {
            FormatFunctionWithArgs::ConvertImageToBase64(images) => Pass::Images(images@),
            FormatFunctionWithArgs::ConvertLink(articles) => Pass::Links(articles@),
        }
    }
}

/// What a pass does to one node.
pub open spec fn visit(pass: Pass, n: AstNodeView) -> Visit {
    match pass {
        Pass::Embed => visit_embed(n),
        Pass::Images(images) => visit_image(images, n),
        Pass::Links(index) => visit_link(index, n),
    }
}

/// The tree after a pass: the node is visited first, then each child that
/// it kept, in order, in the same way.
pub open spec fn rewritten(pass: Pass, n: AstNodeView) -> AstNodeView
    decreases n,
{
    let v = visit(pass, n);
    let kept = v.keep.count(n.children.len() as int);
    AstNodeView {
        id: n.id,
        start_line: n.start_line,
        value: v.value,
        children: Seq::new(
            kept as nat,
            |i: int|
                if 0 <= i < n.children.len() {
                    rewritten(pass, n.children[i])
                } else {
                    arbitrary()
                },
        ),
    }
}

/// A visit that gives an error leaves the node as it is, whatever the pass.
pub proof fn lemma_failed_visit_changes_nothing(pass: Pass, n: AstNodeView)
    requires
        visit(pass, n).error is Some,
    ensures
        visited(n, visit(pass, n)) == n,
{
    let v = visit(pass, n);
    assert(v.value == n.value && v.keep == Keep::Every);
    assert(n.children.take(n.children.len() as int) =~= n.children);
}

/// A pass keeps the place of the node in the parsed document and the line
/// on which it begins, and adds no child.
pub proof fn lemma_rewritten_shape(pass: Pass, n: AstNodeView)
    ensures
        rewritten(pass, n).id == n.id,
        rewritten(pass, n).start_line == n.start_line,
        rewritten(pass, n).children.len() <= n.children.len(),
{
}

/// The error of a visit as a list of none or one.
pub open spec fn own_failure(v: Visit) -> Seq<ErrorView> {
    match v.error {
        Some(e) => seq![e],
        None => Seq::empty(),
    }
}

/// The errors of a pass over a tree, in the order of the visits: the node's
/// own, then those of each child that it kept.
pub open spec fn failures(pass: Pass, n: AstNodeView) -> Seq<ErrorView>
    decreases n, n.children.len() + 1,
{
    let v = visit(pass, n);
    own_failure(v) + failures_in(pass, n, v.keep.count(n.children.len() as int))
}

/// The errors of a pass over the first `k` children of a node.
pub open spec fn failures_in(pass: Pass, n: AstNodeView, k: int) -> Seq<ErrorView>
    decreases n, k,
{
    if k <= 0 || k > n.children.len() {
        Seq::empty()
    } else {
        failures_in(pass, n, k - 1) + failures(pass, n.children[k - 1])
    }
}

/// The views of a sequence of errors.
pub open spec fn error_views(errors: Seq<Error>) -> Seq<ErrorView> {
    Seq::new(errors.len(), |i: int| errors[i]@)
}

/// The passes as the walk takes them.
enum Walk<'a> {
    Embed,
    Images(&'a ImageTable),
    Links(&'a ArticlePathIndex),
}

impl<'a> Walk<'a> {
    /// The pass as the contracts speak of it.
    spec fn pass(&self) -> Pass {
        match *self {
            Walk::Embed => Pass::Embed,
            Walk::Images(images) => Pass::Images(images@),
            Walk::Links(articles) => Pass::Links(articles@),
        }
    }
}

/// Visits a node and then, in order, each child that it kept. Errors are
/// collected and stop nothing.
fn iter_nodes(node: &mut AstNode, walk: &Walk<'_>, errors: &mut Vec<Error>)
    ensures
        (*final(node))@ == rewritten(walk.pass(), (*old(node))@),
        error_views(final(errors)@) == error_views(old(errors)@) + failures(
            walk.pass(),
            (*old(node))@,
        ),
    decreases *old(node),
{
    let ghost before = *old(node);
    let ghost pass = walk.pass();
    let ghost v = visit(pass, before@);
    let ghost kept = v.keep.count(before.children@.len() as int);
    let ghost errors_before = error_views(errors@);
    proof {
        lemma_children_view(before);
        assert(before.children@.take(before.children@.len() as int) =~= before.children@);
    }
    let outcome = match walk {
        Walk::Embed => convert_codepen_link_to_iframe(node),
        Walk::Images(images) => convert_image_to_base64(node, images),
        Walk::Links(articles) => convert_link(node, articles),
    };
    match outcome {
        Err(e) => {
            errors.push(e);
            assert(error_views(errors@) =~= errors_before + own_failure(v));
        },
        Ok(_) => {
            assert(error_views(errors@) =~= errors_before + own_failure(v));
        },
    }
    let ghost mid = *node;
    proof {
        lemma_children_view(mid);
        assert(mid.children@ == before.children@.take(kept));
    }
    let n: usize = node.children.len();
    let mut i: usize = 0;
    while i < n
        invariant
            i <= n,
            n == kept,
            kept <= before.children@.len(),
            node.children@.len() == n,
            node.id == mid.id,
            node.start_line == mid.start_line,
            node.value == mid.value,
            before == *old(node),
            pass == walk.pass(),
            forall|j: int|
                0 <= j < i ==> (#[trigger] node.children@[j])@ == rewritten(
                    pass,
                    before.children@[j]@,
                ),
            forall|j: int| i <= j < n ==> #[trigger] node.children@[j] == before.children@[j],
            error_views(errors@) == errors_before + own_failure(v) + failures_in(
                pass,
                before@,
                i as int,
            ),
        decreases n - i,
    {
        let ghost so_far = error_views(errors@);
        proof {
            lemma_children_view(before);
            assert(before@.children[i as int] == before.children@[i as int]@);
        }
        iter_nodes(&mut node.children[i], walk, errors);
        i = i + 1;
        assert(error_views(errors@) =~= errors_before + own_failure(v) + failures_in(
            pass,
            before@,
            i as int,
        ));
    }
    proof {
        let after = *node;
        lemma_children_view(after);
        lemma_children_view(before);
        assert forall|j: int| 0 <= j < kept implies after@.children[j] == rewritten(
            pass,
            before@,
        ).children[j] by {
            assert(after@.children[j] == after.children@[j]@);
            assert(before@.children[j] == before.children@[j]@);
        }
        assert(after@.children =~= rewritten(pass, before@).children);
        assert(mid@ == visited(before@, v));
    }
}

/// The addresses of the images of a tree that parse as addresses, in the
/// order in which a pass visits them.
pub open spec fn image_addresses(n: AstNodeView) -> Seq<Seq<char>>
    decreases n, n.children.len() + 1,
{
    own_image_address(n) + image_addresses_in(n, n.children.len() as int)
}

/// The address of a node as a list of none or one: one where the node is an
/// image and the address parses.
pub open spec fn own_image_address(n: AstNodeView) -> Seq<Seq<char>> {
    match n.value {
        NodeValueView::Image { url, title } => if url_parse(url) is Ok {
            seq![url]
        } else {
            Seq::empty()
        },
        _ => Seq::empty(),
    }
}

/// The image addresses below the first `k` children of a node.
pub open spec fn image_addresses_in(n: AstNodeView, k: int) -> Seq<Seq<char>>
    decreases n, k,
{
    if k <= 0 || k > n.children.len() {
        Seq::empty()
    } else {
        image_addresses_in(n, k - 1) + image_addresses(n.children[k - 1])
    }
}

/// Appends the addresses of the images below a node that parse as addresses,
/// in the order of the visits.
fn collect_image_urls(node: &AstNode, urls: &mut Vec<String>)
    ensures
        string_views(final(urls)@) == string_views(old(urls)@)
            + image_addresses(node@),
    decreases node,
{
    let ghost start = string_views(urls@);
    proof {
        lemma_children_view(*node);
    }
    match &node.value {
        NodeValue::Image(link) => {
            if parses_as_url(link.url.as_str()) {
                urls.push(link.url.clone());
            }
        },
        _ => {},
    }
    assert(string_views(urls@) =~= start + own_image_address(node@));
    let mut i: usize = 0;
    while i < node.children.len()
        invariant
            i <= node.children@.len(),
            string_views(urls@) == start + own_image_address(node@)
                + image_addresses_in(node@, i as int),
        decreases node.children@.len() - i,
    {
        proof {
            lemma_children_view(*node);
            assert(node@.children[i as int] == node.children@[i as int]@);
        }
        collect_image_urls(&node.children[i], urls);
        i = i + 1;
        assert(string_views(urls@) =~= start + own_image_address(node@)
            + image_addresses_in(node@, i as int));
    }
    proof {
        lemma_children_view(*node);
        assert(string_views(urls@) =~= start + image_addresses(node@));
    }
}

// ---------------------------------------------------------------------------
// The formatter

/// A document and the passes over it. Before a document is handed in there
/// is nothing to rewrite, and every pass does nothing.
pub struct Formatter {
    pub root: Option<AstNode>,
}

impl Formatter {
    /// A formatter without a document.
    pub fn new() -> (r: Self)
        ensures
            r.root is None,
    {
        Formatter { root: None }
    }

    /// Takes the parsed document that the passes will rewrite.
    pub fn parse(&mut self, document: AstNode)
        ensures
            final(self).root == Some(document),
    {
        self.root = Some(document);
    }

    /// Runs a pass over the document, if there is one.
    fn walk(&mut self, walk: &Walk<'_>) -> (r: Vec<Error>)
        ensures
            match old(self).root {
                Some(document) => final(self).root is Some && final(self).root->0@ == rewritten(
                    walk.pass(),
                    document@,
                ) && error_views(r@) == failures(walk.pass(), document@),
                None => final(self).root is None && r@.len() == 0,
            },
    {
        let mut errors: Vec<Error> = Vec::new();
        assert(error_views(errors@) =~= Seq::<ErrorView>::empty());
        match &mut self.root {
            Some(document) => {
                iter_nodes(document, walk, &mut errors);
                assert(error_views(errors@) =~= failures(walk.pass(), old(self).root->0@));
            },
            None => {},
        }
        errors
    }

    /// Runs a pass over the document and hands out the errors of its
    /// visits, in the order of the visits.
    pub fn format(&mut self, func: FormatFunction) -> (r: Vec<Error>)
        ensures
            match old(self).root {
                Some(document) => final(self).root is Some && final(self).root->0@ == rewritten(
                    func@,
                    document@,
                ) && error_views(r@) == failures(func@, document@),
                None => final(self).root is None && r@.len() == 0,
            },
    {
        self.walk(&Walk::Embed)
    }

    /// Runs a pass that reads a table over the document and hands out the
    /// errors of its visits, in the order of the visits.
    pub fn format_with_args(&mut self, func: &FormatFunctionWithArgs<'_>) -> (r: Vec<Error>)
        ensures
            match old(self).root {
                Some(document) => final(self).root is Some && final(self).root->0@ == rewritten(
                    func@,
                    document@,
                ) && error_views(r@) == failures(func@, document@),
                None => final(self).root is None && r@.len() == 0,
            },
    {
        match func {
            FormatFunctionWithArgs::ConvertImageToBase64(images) => self.walk(
                &Walk::Images(images),
            ),
            FormatFunctionWithArgs::ConvertLink(articles) => self.walk(&Walk::Links(articles)),
        }
    }

    /// The addresses of the document's images that have to be fetched before
    /// the image pass runs, in the order of its visits.
    pub fn image_urls(&self) -> (r: Vec<String>)
        ensures
            match self.root {
                Some(document) => string_views(r@) == image_addresses(document@),
                None => r@.len() == 0,
            },
    {
        let mut urls: Vec<String> = Vec::new();
        assert(string_views(urls@) =~= Seq::<Seq<char>>::empty());
        match &self.root {
            Some(document) => {
                collect_image_urls(document, &mut urls);
                assert(string_views(urls@) =~= image_addresses(document@));
            },
            None => {},
        }
        urls
    }
}

impl Default for Formatter {
    fn default() -> (r: Self)
        ensures
            r.root is None,
    {
        Formatter::new()
    }
}

} // verus!
