//! Links between documents: a link to a document of the namespace is
//! pointed at the file that the document was written to.

use vstd::prelude::*;
use crate::error::{Error, ErrorView};
use crate::formatter::{
    lemma_children_view, outcome_is, refused, untouched, visited, AstNode, AstNodeView, Keep,
    NodeLink, NodeValue, NodeValueView, Visit,
};
use crate::passes::address::{address_of, parse_url, parsed_view, url_parse, UrlParts};
use crate::passes::{address, is_link, lemma_visited};
use crate::table::{inserted, lemma_position_of, lemma_same_positions, lookup, position_of, StrMap};
use crate::text::{chars_of, concat, last_segment, last_segment_of, string_of};
use crate::toc::parse::{below_output_root, strip_output_root};

verus! {

broadcast use vstd::string::group_string_axioms;

/// Where the documents of one namespace were written: from the name by
/// which other documents link to one, to the path of its file.
pub struct ArticlePathIndex {
    paths: StrMap<String>,
}

impl ArticlePathIndex {
    /// The pairs of name and path, in the order in which the names came.
    pub closed spec fn view(&self) -> Seq<(Seq<char>, Seq<char>)> {
        Seq::new(
            self.paths.entries().len(),
            |i: int| (self.paths.entries()[i].0, self.paths.entries()[i].1@),
        )
    }

    /// An index without documents.
    pub fn new() -> (r: Self)
        ensures
            r@ == Seq::<(Seq<char>, Seq<char>)>::empty(),
    {
        let r = ArticlePathIndex { paths: StrMap::new() };
        assert(r@ =~= Seq::<(Seq<char>, Seq<char>)>::empty());
        r
    }

    /// The number of documents.
    pub fn len(&self) -> (n: usize)
        ensures
            n == self@.len(),
    {
        self.paths.len()
    }

    /// Records the path of a document; a path recorded before under the same
    /// name is replaced.
    pub fn insert(&mut self, slug: String, path: String)
        ensures
            final(self)@ == inserted(old(self)@, slug@, path@),
    {
        proof {
            lemma_same_positions(old(self).paths.entries(), old(self)@, slug@);
        }
        self.paths.insert(slug, path);
        proof {
            let at = position_of(old(self)@, slug@);
            lemma_position_of(old(self)@, slug@);
            assert(self.paths.entries() == inserted(old(self).paths.entries(), slug@, path));
            if at < old(self)@.len() {
                assert(self@ =~= old(self)@.update(at, (slug@, path@)));
            } else {
                assert(self@ =~= old(self)@.push((slug@, path@)));
            }
        }
    }

    /// The path recorded under a name.
    pub fn get(&self, slug: &str) -> (r: Option<&String>)
        ensures
            match r {
                Some(path) => lookup(self@, slug@) == Some(path@),
                None => lookup(self@, slug@) is None,
            },
    {
        proof {
            lemma_same_positions(self.paths.entries(), self@, slug@);
            lemma_position_of(self@, slug@);
            let at = position_of(self@, slug@);
            if at < self@.len() {
                assert(self@[at].1 == self.paths.entries()[at].1@);
            }
        }
        self.paths.get(slug)
    }
}

/// A path as the site serves it: from the root of the site, without the
/// output directory that it was written under.
pub open spec fn site_relative(path: Seq<char>) -> Seq<char> {
    seq!['/'] + below_output_root(path)
}

/// What the link pass does to a node whose address was parsed. A link
/// whose address parsed, has a domain, and ends in the name of a recorded
/// document is pointed at that document's file and loses its title; its
/// children stay as they are. Any other link stays and gives the reason as
/// an error; a node that is no link stays.
pub open spec fn link_visit(
    index: Seq<(Seq<char>, Seq<char>)>,
    n: AstNodeView,
    parsed: Result<(Option<Seq<char>>, Seq<char>), Seq<char>>,
) -> Visit {
    match n.value {
        NodeValueView::Link { url, title } => match parsed {
            Err(message) => refused(n, ErrorView::InvalidUrl(message)),
            Ok((domain, path)) => if domain is None {
                refused(n, ErrorView::Internal("Invalid url: "@ + url))
            } else {
                match last_segment(path) {
                    None => refused(n, ErrorView::Internal("Invalid url path: "@ + url)),
                    Some(slug) => match lookup(index, slug) {
                        None => refused(n, ErrorView::Internal("No such document: "@ + slug)),
                        Some(target) => Visit {
                            value: NodeValueView::Link {
                                url: site_relative(target),
                                title: Seq::empty(),
                            },
                            keep: Keep::Every,
                            error: None,
                        },
                    },
                }
            },
        },
        _ => untouched(n),
    }
}

/// What the link pass does to a node.
pub open spec fn visit_link(index: Seq<(Seq<char>, Seq<char>)>, n: AstNodeView) -> Visit {
    link_visit(index, n, url_parse(address_of(n)))
}

/// Turns a path into the one that the site serves.
fn to_site_relative(path: &String) -> (r: String)
    ensures
        r@ == site_relative(path@),
{
    let below = strip_output_root(path.as_str());
    proof {
        reveal_strlit("/");
        assert("/"@ =~= seq!['/']);
    }
    concat("/", below.as_str())
}

/// The link pass on one node whose address was parsed already.
pub fn resolve_link(
    node: &mut AstNode,
    parsed: Result<UrlParts, String>,
    articles: &ArticlePathIndex,
) -> (r: Result<(), Error>)
    ensures
        outcome_is(r, link_visit(articles@, (*old(node))@, parsed_view(parsed))),
        (*final(node))@ == visited(
            (*old(node))@,
            link_visit(articles@, (*old(node))@, parsed_view(parsed)),
        ),
        final(node).children@ == old(node).children@,
{
    proof {
        lemma_children_view(*old(node));
        assert(node.children@.take(node.children@.len() as int) =~= node.children@);
    }
    let ghost v = link_visit(articles@, (*old(node))@, parsed_view(parsed));
    let url: String = match &node.value {
        NodeValue::Link(link) => link.url.clone(),
        _ => {
            proof {
                lemma_visited(*old(node), *node, v);
            }
            return Ok(());
        },
    };
    let parts = match parsed {
        Ok(parts) => parts,
        Err(message) => {
            proof {
                lemma_visited(*old(node), *node, v);
            }
            return Err(Error::InvalidUrl(message));
        },
    };
    if parts.domain.is_none() {
        proof {
            lemma_visited(*old(node), *node, v);
        }
        return Err(Error::Internal(concat("Invalid url: ", url.as_str())));
    }
    let slug: String = match last_segment_of(&chars_of(parts.path.as_str())) {
        Some(segment) => string_of(&segment),
        None => {
            proof {
                lemma_visited(*old(node), *node, v);
            }
            return Err(Error::Internal(concat("Invalid url path: ", url.as_str())));
        },
    };
    let target: String = match articles.get(slug.as_str()) {
        Some(path) => to_site_relative(path),
        None => {
            proof {
                lemma_visited(*old(node), *node, v);
            }
            return Err(Error::Internal(concat("No such document: ", slug.as_str())));
        },
    };
    node.value = NodeValue::Link(NodeLink { url: target, title: String::new() });
    proof {
        lemma_visited(*old(node), *node, v);
    }
    Ok(())
}

/// The link pass on one node.
pub fn convert_link(node: &mut AstNode, articles: &ArticlePathIndex) -> (r: Result<(), Error>)
    ensures
        outcome_is(r, visit_link(articles@, (*old(node))@)),
        (*final(node))@ == visited((*old(node))@, visit_link(articles@, (*old(node))@)),
        final(node).children@ == old(node).children@,
{
    if is_link(node) {
        let parsed = parse_url(address(node).as_str());
        resolve_link(node, parsed, articles)
    } else {
        proof {
            lemma_children_view(*old(node));
            assert(node.children@.take(node.children@.len() as int) =~= node.children@);
            lemma_visited(*old(node), *node, visit_link(articles@, (*old(node))@));
        }
        Ok(())
    }
}

/// A link whose name is not in the index stays as it is.
pub proof fn lemma_unknown_link_stays(
    index: Seq<(Seq<char>, Seq<char>)>,
    n: AstNodeView,
    domain: Seq<char>,
    path: Seq<char>,
    name: Seq<char>,
)
    requires
        n.value is Link,
        url_parse(address_of(n)) == Ok::<(Option<Seq<char>>, Seq<char>), Seq<char>>(
            (Some(domain), path),
        ),
        last_segment(path) == Some(name),
        lookup(index, name) is None,
    ensures
        visited(n, visit_link(index, n)) == n,
        visit_link(index, n).error == Some(ErrorView::Internal("No such document: "@ + name)),
{
    assert(n.children.take(n.children.len() as int) =~= n.children);
}

} // verus!
