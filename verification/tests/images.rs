use yuque_ssg::error::Error;
use yuque_ssg::formatter::{AstNode, NodeHtmlBlock, NodeLink, NodeValue};
use yuque_ssg::passes::image::{convert_image_to_base64, image_to_base64, ImageTable};

fn image(url: &str, children: Vec<AstNode>) -> AstNode {
    AstNode {
        id: 3,
        start_line: 0,
        value: NodeValue::Image(NodeLink { url: url.to_string(), title: "shown".to_string() }),
        children,
    }
}

fn encoded(format: image::ImageOutputFormat) -> Vec<u8> {
    let mut pixels = image::RgbaImage::new(2, 1);
    pixels.put_pixel(0, 0, image::Rgba([255, 0, 0, 255]));
    pixels.put_pixel(1, 0, image::Rgba([0, 0, 255, 255]));
    let mut out = Vec::new();
    image::DynamicImage::ImageRgba8(pixels)
        .write_to(&mut std::io::Cursor::new(&mut out), format)
        .unwrap();
    out
}

fn decoded(uri: &str) -> Vec<u8> {
    let text = uri.strip_prefix("data:image/png;base64,").unwrap();
    base64::Engine::decode(&base64::prelude::BASE64_STANDARD, text).unwrap()
}

#[test]
fn vector_markup_becomes_a_block_that_holds_the_bytes() {
    let bytes = b"<svg xmlns=\"http://www.w3.org/2000/svg\"><rect/></svg>\xff".to_vec();
    let mut table = ImageTable::new();
    table.insert("https://img.example.com/a.svg".to_string(), Ok(bytes.clone()));
    let mut node = image("https://img.example.com/a.svg", vec![AstNode::new(4, NodeValue::Text("alt".into()))]);
    assert_eq!(convert_image_to_base64(&mut node, &table), Ok(()));
    assert_eq!(node.value, NodeValue::HtmlBlock(NodeHtmlBlock { block_type: 7, literal: bytes }));
    assert_eq!(node.children, vec![AstNode::new(4, NodeValue::Text("alt".into()))]);
}

#[test]
fn a_png_becomes_an_address_that_holds_it() {
    let png = encoded(image::ImageOutputFormat::Png);
    let mut table = ImageTable::new();
    table.insert("https://img.example.com/a.png".to_string(), Ok(png));
    let mut node = image("https://img.example.com/a.png", vec![]);
    assert_eq!(convert_image_to_base64(&mut node, &table), Ok(()));
    match &node.value {
        NodeValue::Image(link) => {
            assert!(link.url.starts_with("data:image/png;base64,"));
            assert_eq!(link.title, "shown");
            let back = image::load_from_memory(&decoded(&link.url)).unwrap().to_rgba8();
            assert_eq!(back.dimensions(), (2, 1));
            assert_eq!(back.get_pixel(0, 0), &image::Rgba([255, 0, 0, 255]));
            assert_eq!(back.get_pixel(1, 0), &image::Rgba([0, 0, 255, 255]));
        }
        other => panic!("not an image: {:?}", other),
    }
}

#[test]
fn an_image_of_another_format_is_written_as_png() {
    let bmp = encoded(image::ImageOutputFormat::Bmp);
    assert_ne!(&bmp[..4], b"\x89PNG");
    let uri = image_to_base64(&bmp).unwrap();
    let png = decoded(&uri);
    assert_eq!(&png[..8], b"\x89PNG\r\n\x1a\n");
    assert_ne!(png, bmp);
    let back = image::load_from_memory(&png).unwrap().to_rgba8();
    assert_eq!(back.get_pixel(1, 0), &image::Rgba([0, 0, 255, 255]));
}

#[test]
fn the_address_is_the_base64_of_the_png() {
    let png = encoded(image::ImageOutputFormat::Png);
    let uri = image_to_base64(&png).unwrap();
    let again = decoded(&uri);
    let wanted = base64::Engine::encode(&base64::prelude::BASE64_STANDARD, &again);
    assert_eq!(uri, format!("data:image/png;base64,{}", wanted));
    assert_ne!(uri.as_bytes(), &again[..]);
}

#[test]
fn bytes_that_are_no_image_are_an_image_error() {
    assert!(matches!(image_to_base64(&b"certainly no image".to_vec()), Err(Error::Image(_))));
    let mut table = ImageTable::new();
    table.insert("https://img.example.com/x".to_string(), Ok(b"certainly no image".to_vec()));
    let mut node = image("https://img.example.com/x", vec![]);
    assert!(matches!(convert_image_to_base64(&mut node, &table), Err(Error::Image(_))));
    assert_eq!(node, image("https://img.example.com/x", vec![]));
}

#[test]
fn the_error_of_the_fetch_is_the_error_of_the_image() {
    let mut table = ImageTable::new();
    table.insert("https://img.example.com/x".to_string(), Err(Error::Reqwest("timed out".into())));
    let mut node = image("https://img.example.com/x", vec![]);
    assert_eq!(convert_image_to_base64(&mut node, &table), Err(Error::Reqwest("timed out".into())));
    assert_eq!(node, image("https://img.example.com/x", vec![]));
}

#[test]
fn an_image_that_was_not_fetched_is_reported() {
    let mut node = image("https://img.example.com/x", vec![]);
    assert_eq!(
        convert_image_to_base64(&mut node, &ImageTable::new()),
        Err(Error::Internal("No image data: https://img.example.com/x".into()))
    );
}

#[test]
fn an_image_whose_address_does_not_parse_is_reported() {
    let mut table = ImageTable::new();
    table.insert("nowhere".to_string(), Ok(b"<svg/>".to_vec()));
    let mut node = image("nowhere", vec![]);
    assert!(matches!(convert_image_to_base64(&mut node, &table), Err(Error::InvalidUrl(_))));
    assert_eq!(node, image("nowhere", vec![]));
}

#[test]
fn a_node_that_is_no_image_is_left() {
    let mut node = AstNode::new(1, NodeValue::Other);
    assert_eq!(convert_image_to_base64(&mut node, &ImageTable::new()), Ok(()));
    assert_eq!(node, AstNode::new(1, NodeValue::Other));
}

#[test]
fn the_table_keeps_the_last_outcome_of_an_address() {
    let mut table = ImageTable::new();
    table.insert("u".to_string(), Err(Error::Reqwest("first".into())));
    table.insert("u".to_string(), Ok(vec![1, 2, 3]));
    assert_eq!(table.get("u"), Some(&Ok(vec![1, 2, 3])));
    assert_eq!(table.get("v"), None);
}

#[test]
fn three_bytes_short_of_the_tag_is_no_vector_markup() {
    let mut table = ImageTable::new();
    table.insert("https://img.example.com/x".to_string(), Ok(b"<sv".to_vec()));
    let mut node = image("https://img.example.com/x", vec![]);
    assert!(matches!(convert_image_to_base64(&mut node, &table), Err(Error::Image(_))));
}
