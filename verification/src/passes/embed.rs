//! Embeds: a link to the widget provider becomes a frame that shows it.

use vstd::prelude::*;
use vstd::utf8::encode_utf8;
use crate::error::Error;
use crate::formatter::{
    lemma_children_view, untouched, visited, AstNode, AstNodeView, Keep, NodeHtmlBlock, NodeValue,
    NodeValueView, Visit,
};
use crate::passes::address::{address_of, parse_url, parsed_view, url_parse, UrlParts};
use crate::passes::{address, is_link, lemma_visited};
use crate::text::{chars_of, concat, contains_chars, contains_text};

verus! {

broadcast use vstd::string::group_string_axioms;

/// What stands before the address in the frame of a widget.
pub const IFRAME_HEAD: &'static str =
    "<iframe height=\"400\" style=\"width: 100%;\" scrolling=\"no\" title=\"Untitled\" src=\"";

/// What stands behind the address in the frame of a widget.
pub const IFRAME_TAIL: &'static str =
    "\" frameborder=\"no\" loading=\"lazy\" allowtransparency=\"true\" allowfullscreen=\"true\"></iframe>\n";

/// Whether a domain belongs to the provider whose links become widgets.
pub open spec fn is_embed_domain(domain: Seq<char>) -> bool {
    contains_text(domain, "codepen"@)
}

/// The widget for an address: a frame that shows it.
pub open spec fn iframe_text(url: Seq<char>) -> Seq<char> {
    IFRAME_HEAD@ + url + IFRAME_TAIL@
}

/// What the embed pass does to a node whose address was parsed: a link to
/// the widget provider becomes a block of HTML that frames the address, and
/// loses its children. Every other node stays.
pub open spec fn embed_visit(
    n: AstNodeView,
    parsed: Result<(Option<Seq<char>>, Seq<char>), Seq<char>>,
) -> Visit {
    match n.value {
        NodeValueView::Link { url, title } => match parsed {
            Ok((Some(domain), _)) => if is_embed_domain(domain) {
                Visit {
                    value: NodeValueView::HtmlBlock {
                        block_type: 6,
                        literal: encode_utf8(iframe_text(url)),
                    },
                    keep: Keep::Nothing,
                    error: None,
                }
            } else {
                untouched(n)
            },
            _ => untouched(n),
        },
        _ => untouched(n),
    }
}

/// What the embed pass does to a node.
pub open spec fn visit_embed(n: AstNodeView) -> Visit {
    embed_visit(n, url_parse(address_of(n)))
}

/// The embed pass on one node whose address was parsed already.
pub fn embed_link(node: &mut AstNode, parsed: &Result<UrlParts, String>)
    ensures
        (*final(node))@ == visited((*old(node))@, embed_visit((*old(node))@, parsed_view(*parsed))),
        final(node).children@ == old(node).children@.take(
            embed_visit((*old(node))@, parsed_view(*parsed)).keep.count(
                old(node).children@.len() as int,
            ),
        ),
{
    proof {
        lemma_children_view(*old(node));
        assert(node.children@.take(node.children@.len() as int) =~= node.children@);
    }
    let ghost v = embed_visit((*old(node))@, parsed_view(*parsed));
    let url: String = match &node.value {
        NodeValue::Link(link) => link.url.clone(),
        _ => {
            proof {
                lemma_visited(*old(node), *node, v);
            }
            return ;
        },
    };
    let embed: bool = match parsed {
        Ok(parts) => match &parts.domain {
            Some(domain) => contains_chars(&chars_of(domain.as_str()), &chars_of("codepen")),
            None => false,
        },
        Err(_) => false,
    };
    if embed {
        let mut text = concat(IFRAME_HEAD, url.as_str());
        text.append(IFRAME_TAIL);
        let literal = text.as_str().as_bytes_vec();
        node.children.truncate(0);
        node.value = NodeValue::HtmlBlock(NodeHtmlBlock { block_type: 6, literal });
    }
    proof {
        assert(node.children@ =~= old(node).children@.take(
            v.keep.count(old(node).children@.len() as int),
        ));
        lemma_visited(*old(node), *node, v);
    }
}

/// The embed pass on one node.
pub fn convert_codepen_link_to_iframe(node: &mut AstNode) -> (r: Result<(), Error>)
    ensures
        r is Ok,
        (*final(node))@ == visited((*old(node))@, visit_embed((*old(node))@)),
        final(node).children@ == old(node).children@.take(
            visit_embed((*old(node))@).keep.count(old(node).children@.len() as int),
        ),
{
    if is_link(node) {
        let parsed = parse_url(address(node).as_str());
        embed_link(node, &parsed);
    } else {
        proof {
            lemma_children_view(*old(node));
            assert(node.children@.take(node.children@.len() as int) =~= node.children@);
            lemma_visited(*old(node), *node, visit_embed((*old(node))@));
        }
    }
    Ok(())
}

} // verus!
