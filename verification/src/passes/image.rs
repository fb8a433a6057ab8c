//! Remote images: vector markup goes into the document as it is, and a
//! raster image goes into its own address.

use vstd::prelude::*;
use crate::error::{Error, ErrorView};
use crate::formatter::{
    lemma_children_view, outcome_is, refused, untouched, visited, AstNode, AstNodeView, Keep,
    NodeHtmlBlock, NodeLink, NodeValue, NodeValueView, Visit,
};
use crate::passes::address::{address_of, parse_url, parsed_view, url_parse, UrlParts};
use crate::passes::{address, is_image, lemma_visited};
use crate::table::{inserted, lemma_position_of, lemma_same_positions, lookup, position_of, StrMap};
use crate::text::concat;

verus! {

broadcast use vstd::string::group_string_axioms;

/// What was fetched for the images of a document: for each address the
/// bytes that came, or the error of the fetch.
pub struct ImageTable {
    fetched: StrMap<Result<Vec<u8>, Error>>,
}

/// The outcome of a fetch with its bytes and texts as sequences.
pub open spec fn fetch_view(outcome: Result<Vec<u8>, Error>) -> Result<Seq<u8>, ErrorView> {
    match outcome {
        Ok(bytes) => Ok(bytes@),
        Err(e) => Err(e@),
    }
}

impl ImageTable {
    /// The pairs of address and outcome, in the order in which they came.
    pub closed spec fn view(&self) -> Seq<(Seq<char>, Result<Seq<u8>, ErrorView>)> {
        Seq::new(
            self.fetched.entries().len(),
            |i: int| (self.fetched.entries()[i].0, fetch_view(self.fetched.entries()[i].1)),
        )
    }

    /// A table without images.
    pub fn new() -> (r: Self)
        ensures
            r@ == Seq::<(Seq<char>, Result<Seq<u8>, ErrorView>)>::empty(),
    {
        let r = ImageTable { fetched: StrMap::new() };
        assert(r@ =~= Seq::<(Seq<char>, Result<Seq<u8>, ErrorView>)>::empty());
        r
    }

    /// Records what the fetch of an address gave; an earlier outcome for the
    /// same address is replaced.
    pub fn insert(&mut self, url: String, outcome: Result<Vec<u8>, Error>)
        ensures
            final(self)@ == inserted(old(self)@, url@, fetch_view(outcome)),
    {
        proof {
            lemma_same_positions(old(self).fetched.entries(), old(self)@, url@);
        }
        self.fetched.insert(url, outcome);
        proof {
            let at = position_of(old(self)@, url@);
            lemma_position_of(old(self)@, url@);
            assert(self.fetched.entries() == inserted(old(self).fetched.entries(), url@, outcome));
            if at < old(self)@.len() {
                assert(self@ =~= old(self)@.update(at, (url@, fetch_view(outcome))));
            } else {
                assert(self@ =~= old(self)@.push((url@, fetch_view(outcome))));
            }
        }
    }

    /// What the fetch of an address gave.
    pub fn get(&self, url: &str) -> (r: Option<&Result<Vec<u8>, Error>>)
        ensures
            match r {
                Some(outcome) => lookup(self@, url@) == Some(fetch_view(*outcome)),
                None => lookup(self@, url@) is None,
            },
    {
        proof {
            lemma_same_positions(self.fetched.entries(), self@, url@);
            lemma_position_of(self@, url@);
            let at = position_of(self@, url@);
            if at < self@.len() {
                assert(self@[at].1 == fetch_view(self.fetched.entries()[at].1));
            }
        }
        self.fetched.get(url)
    }
}

/// What decoding an image with `image::load_from_memory` and writing it out
/// again as PNG (`DynamicImage::write_to`) gives: the bytes of the PNG, or
/// the text of the error of either step.
pub uninterp spec fn png_reencode(bytes: Seq<u8>) -> Result<Seq<u8>, Seq<char>>;

/// Decodes an image of any format that the `image` crate guesses
/// (`image::load_from_memory`) and encodes it as PNG
/// (`DynamicImage::write_to` with `ImageOutputFormat::Png`). The outcome
/// depends on the bytes alone; nothing more is claimed of it.
#[verifier::external_body]
fn reencode_as_png(bytes: &Vec<u8>) -> (r: Result<Vec<u8>, String>)
    ensures
        png_view(r) == png_reencode(bytes@),
{
    match image::load_from_memory(bytes) {
        Err(e) => Err(e.to_string()),
        Ok(img) => {
            let mut out: Vec<u8> = Vec::new();
            match img.write_to(&mut std::io::Cursor::new(&mut out), image::ImageOutputFormat::Png) {
                Ok(()) => Ok(out),
                Err(e) => Err(e.to_string()),
            }
        },
    }
}

/// What the standard base64 alphabet with padding makes of bytes
/// (`Engine::encode` on `BASE64_STANDARD` of the `base64` crate).
pub uninterp spec fn base64_standard(bytes: Seq<u8>) -> Seq<char>;

/// Encodes bytes with `BASE64_STANDARD.encode`. The encoder panics where the
/// length of the text would not fit the machine's integers, so such input is
/// left out. The text depends on the bytes alone; nothing more is claimed
/// of it.
#[verifier::external_body]
fn encode_base64(bytes: &Vec<u8>) -> (r: String)
    requires
        bytes@.len() / 3 < usize::MAX / 4,
    ensures
        r@ == base64_standard(bytes@),
{
    base64::Engine::encode(&base64::prelude::BASE64_STANDARD, bytes)
}

/// Whether bytes begin with the tag that opens vector markup.
pub open spec fn is_svg(bytes: Seq<u8>) -> bool {
    bytes.len() >= 4 && bytes[0] == 0x3c && bytes[1] == 0x73 && bytes[2] == 0x76 && bytes[3]
        == 0x67
}

/// The address that holds an image whose base64 text is given.
pub open spec fn data_uri_text(encoded: Seq<char>) -> Seq<char> {
    "data:image/png;base64,"@ + encoded
}

/// The address that holds an image, from what writing it as PNG gave: the
/// PNG in base64 behind the scheme and media type. The error of the writing
/// is an image error, and so is a PNG whose text would be longer than the
/// machine can count.
pub open spec fn png_uri(png: Result<Seq<u8>, Seq<char>>) -> Result<Seq<char>, ErrorView> {
    match png {
        Err(message) => Err(ErrorView::Image(message)),
        Ok(bytes) => if bytes.len() / 3 >= usize::MAX / 4 {
            Err(ErrorView::Image("the image is too large to inline"@))
        } else {
            Ok(data_uri_text(base64_standard(bytes)))
        },
    }
}

/// The address that holds a raster image itself.
pub open spec fn data_uri(bytes: Seq<u8>) -> Result<Seq<char>, ErrorView> {
    png_uri(png_reencode(bytes))
}

/// The address that holds an image whose base64 text is given.
pub fn base64_data_uri(encoded: &str) -> (r: String)
    ensures
        r@ == data_uri_text(encoded@),
{
    concat("data:image/png;base64,", encoded)
}

/// The outcome of writing an image as PNG, as a view.
pub open spec fn png_view(png: Result<Vec<u8>, String>) -> Result<Seq<u8>, Seq<char>> {
    match png {
        Ok(bytes) => Ok(bytes@),
        Err(message) => Err(message@),
    }
}

/// Whether the outcome is the one that the contract describes.
pub open spec fn uri_is(r: Result<String, Error>, wanted: Result<Seq<char>, ErrorView>) -> bool {
    match r {
        Ok(uri) => wanted == Ok::<Seq<char>, ErrorView>(uri@),
        Err(e) => wanted == Err::<Seq<char>, ErrorView>(e@),
    }
}

/// The address that holds an image, from what writing it as PNG gave.
pub fn png_data_uri(png: Result<Vec<u8>, String>) -> (r: Result<String, Error>)
    ensures
        uri_is(r, png_uri(png_view(png))),
{
    match png {
        Err(message) => Err(Error::Image(message)),
        Ok(bytes) => {
            if bytes.len() / 3 >= usize::MAX / 4 {
                Err(Error::Image("the image is too large to inline".to_owned()))
            } else {
                let encoded = encode_base64(&bytes);
                Ok(base64_data_uri(encoded.as_str()))
            }
        },
    }
}

/// Turns the bytes of a raster image into an address that holds the image.
pub fn image_to_base64(bytes: &Vec<u8>) -> (r: Result<String, Error>)
    ensures
        uri_is(r, data_uri(bytes@)),
{
    png_data_uri(reencode_as_png(bytes))
}

/// What is to be done with a node in the image pass.
#[derive(Debug, PartialEq, Eq)]
pub enum ImagePlan {
    /// The node is no image.
    Leave,
    /// The image cannot be inlined.
    Fail(Error),
    /// The bytes are vector markup and go into the document as they are.
    Vector(Vec<u8>),
    /// The bytes are a raster image that goes into the address.
    Raster(Vec<u8>),
}

/// A plan with its bytes and texts as sequences.
pub enum ImagePlanView {
    Leave,
    Fail(ErrorView),
    Vector(Seq<u8>),
    Raster(Seq<u8>),
}

impl View for ImagePlan {
    type V = ImagePlanView;

    open spec fn view(&self) -> ImagePlanView {
        match *self {
            ImagePlan::Leave => ImagePlanView::Leave,
            ImagePlan::Fail(e) => ImagePlanView::Fail(e@),
            ImagePlan::Vector(bytes) => ImagePlanView::Vector(bytes@),
            ImagePlan::Raster(bytes) => ImagePlanView::Raster(bytes@),
        }
    }
}

/// What is to be done with a node whose address was parsed: an image whose
/// address parsed and whose bytes were fetched is inlined, as vector markup
/// where its bytes begin with the tag of it and as a raster image
/// otherwise; any other image fails with the reason, and a node that is no
/// image is left.
pub open spec fn image_plan(
    images: Seq<(Seq<char>, Result<Seq<u8>, ErrorView>)>,
    n: AstNodeView,
    parsed: Result<(Option<Seq<char>>, Seq<char>), Seq<char>>,
) -> ImagePlanView {
    match n.value {
        NodeValueView::Image { url, title } => match parsed {
            Err(message) => ImagePlanView::Fail(ErrorView::InvalidUrl(message)),
            Ok(_) => match lookup(images, url) {
                None => ImagePlanView::Fail(ErrorView::Internal("No image data: "@ + url)),
                Some(Err(e)) => ImagePlanView::Fail(e),
                Some(Ok(bytes)) => if is_svg(bytes) {
                    ImagePlanView::Vector(bytes)
                } else {
                    ImagePlanView::Raster(bytes)
                },
            },
        },
        _ => ImagePlanView::Leave,
    }
}

/// What the image pass does to a node. Vector markup becomes a block of
/// HTML that holds the bytes unchanged; a raster image gets an address that
/// holds the image itself; an image that cannot be inlined stays and gives
/// the reason as an error; a node that is no image stays. The children
/// always stay.
pub open spec fn visit_image(
    images: Seq<(Seq<char>, Result<Seq<u8>, ErrorView>)>,
    n: AstNodeView,
) -> Visit {
    match image_plan(images, n, url_parse(address_of(n))) {
        ImagePlanView::Leave => untouched(n),
        ImagePlanView::Fail(e) => refused(n, e),
        ImagePlanView::Vector(bytes) => Visit {
            value: NodeValueView::HtmlBlock { block_type: 7, literal: bytes },
            keep: Keep::Every,
            error: None,
        },
        ImagePlanView::Raster(bytes) => match data_uri(bytes) {
            Err(e) => refused(n, e),
            Ok(uri) => Visit {
                value: NodeValueView::Image { url: uri, title: n.value->Image_title },
                keep: Keep::Every,
                error: None,
            },
        },
    }
}

/// An image whose address parses and whose fetched bytes begin with the
/// tag of vector markup becomes a block of HTML that holds exactly those
/// bytes, and nothing is reported.
pub proof fn lemma_vector_markup_is_kept(
    images: Seq<(Seq<char>, Result<Seq<u8>, ErrorView>)>,
    n: AstNodeView,
    bytes: Seq<u8>,
)
    requires
        n.value is Image,
        url_parse(address_of(n)) is Ok,
        lookup(images, address_of(n)) == Some(Ok::<Seq<u8>, ErrorView>(bytes)),
        is_svg(bytes),
    ensures
        visit_image(images, n).value == (NodeValueView::HtmlBlock { block_type: 7, literal: bytes }),
        visit_image(images, n).error is None,
{
}

/// A copy of bytes.
fn copy_bytes(bytes: &Vec<u8>) -> (r: Vec<u8>)
    ensures
        r@ == bytes@,
{
    let mut r: Vec<u8> = Vec::new();
    let mut i: usize = 0;
    while i < bytes.len()
        invariant
            i <= bytes.len(),
            r@ == bytes@.take(i as int),
        decreases bytes.len() - i,
    {
        r.push(bytes[i]);
        i = i + 1;
        assert(r@ =~= bytes@.take(i as int));
    }
    assert(bytes@.take(bytes@.len() as int) =~= bytes@);
    r
}

/// Whether bytes begin with the tag that opens vector markup.
fn starts_with_svg(bytes: &Vec<u8>) -> (r: bool)
    ensures
        r == is_svg(bytes@),
{
    bytes.len() >= 4 && bytes[0] == 0x3c && bytes[1] == 0x73 && bytes[2] == 0x76 && bytes[3]
        == 0x67
}

/// Decides what the image pass does with a node whose address was parsed.
pub fn plan_image(node: &AstNode, parsed: &Result<UrlParts, String>, images: &ImageTable) -> (r:
    ImagePlan)
    ensures
        r@ == image_plan(images@, node@, parsed_view(*parsed)),
{
    proof {
        lemma_children_view(*node);
    }
    let url: &String = match &node.value {
        NodeValue::Image(link) => &link.url,
        _ => {
            return ImagePlan::Leave;
        },
    };
    match parsed {
        Ok(_) => {},
        Err(message) => {
            return ImagePlan::Fail(Error::InvalidUrl(message.clone()));
        },
    }
    match images.get(url.as_str()) {
        None => ImagePlan::Fail(Error::Internal(concat("No image data: ", url.as_str()))),
        Some(Err(e)) => ImagePlan::Fail(e.clone()),
        Some(Ok(bytes)) => if starts_with_svg(bytes) {
            ImagePlan::Vector(copy_bytes(bytes))
        } else {
            ImagePlan::Raster(copy_bytes(bytes))
        },
    }
}

/// The image pass on one node.
pub fn convert_image_to_base64(node: &mut AstNode, images: &ImageTable) -> (r: Result<(), Error>)
    ensures
        outcome_is(r, visit_image(images@, (*old(node))@)),
        (*final(node))@ == visited((*old(node))@, visit_image(images@, (*old(node))@)),
        final(node).children@ == old(node).children@,
{
    proof {
        lemma_children_view(*old(node));
        assert(node.children@.take(node.children@.len() as int) =~= node.children@);
    }
    let ghost v = visit_image(images@, (*old(node))@);
    let plan = if is_image(node) {
        let parsed = parse_url(address(node).as_str());
        plan_image(node, &parsed, images)
    } else {
        ImagePlan::Leave
    };
    match plan {
        ImagePlan::Leave => {
            proof {
                lemma_visited(*old(node), *node, v);
            }
            Ok(())
        },
        ImagePlan::Fail(e) => {
            proof {
                lemma_visited(*old(node), *node, v);
            }
            Err(e)
        },
        ImagePlan::Vector(bytes) => {
            node.value = NodeValue::HtmlBlock(NodeHtmlBlock { block_type: 7, literal: bytes });
            proof {
                lemma_visited(*old(node), *node, v);
            }
            Ok(())
        },
        ImagePlan::Raster(bytes) => {
            let title: String = match &node.value {
                NodeValue::Image(link) => link.title.clone(),
                _ => String::new(),
            };
            match image_to_base64(&bytes) {
                Err(e) => {
                    proof {
                        lemma_visited(*old(node), *node, v);
                    }
                    Err(e)
                },
                Ok(uri) => {
                    node.value = NodeValue::Image(NodeLink { url: uri, title });
                    proof {
                        lemma_visited(*old(node), *node, v);
                    }
                    Ok(())
                },
            }
        },
    }
}

} // verus!
