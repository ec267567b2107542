//! The enrichment pipeline's own decisions: which stages run for a task, the
//! image facts and thumbnail, the OCR request and how its answer joins the
//! searchable text, and which bytes the visual embedding reads.

use vstd::prelude::*;
use crate::payload::ItemType;
use crate::text::{str_eq, trim, trim_spec};

verus! {

/// The longest edge of a thumbnail, in pixels.
pub const THUMBNAIL_EDGE: u32 = 800;

/// The instruction sent with an image for OCR: recognise all text in the
/// image and output only that text, with no explanation; output "空"
/// ("empty") when there is none.
pub const OCR_INSTRUCTION: &'static str = "\u{8BF7}\u{8BC6}\u{522B}\u{8FD9}\u{5F20}\u{56FE}\u{7247}\u{4E2D}\u{7684}\u{6240}\u{6709}\u{6587}\u{5B57}\u{5185}\u{5BB9}\u{FF0C}\u{53EA}\u{8F93}\u{51FA}\u{8BC6}\u{522B}\u{5230}\u{7684}\u{6587}\u{5B57}\u{FF0C}\u{4E0D}\u{8981}\u{4EFB}\u{4F55}\u{89E3}\u{91CA}\u{3002}\u{5982}\u{679C}\u{6CA1}\u{6709}\u{6587}\u{5B57}\u{5C31}\u{8F93}\u{51FA}\u{7A7A}\u{3002}";

/// The OCR answer that means "no text".
pub const OCR_EMPTY: &'static str = "\u{7A7A}";

/// The start of the data URL that carries an image to the OCR service.
pub const JPEG_DATA_URL_PREFIX: &'static str = "data:image/jpeg;base64,";

/// The file id to download, if the payload names a non-empty one.
pub fn file_to_download(file_id: &Option<String>) -> (r: Option<&str>)
    ensures
        match r {
            Some(f) => file_id matches Some(x) && x@ == f@ && f@.len() > 0,
            None => file_id matches Some(x) ==> x@.len() == 0,
        },
{
    match file_id {
        Some(f) => {
            if f.as_str().unicode_len() > 0 {
                Some(f.as_str())
            } else {
                None
            }
        },
        None => None,
    }
}

/// The image stage runs for an image with downloaded bytes; so does OCR.
pub open spec fn runs_image_stage(t: ItemType, file_len: int) -> bool {
    t == ItemType::Image && file_len > 0
}

/// The video stage runs for a video with downloaded bytes.
pub open spec fn runs_video_stage(t: ItemType, file_len: int) -> bool {
    t == ItemType::Video && file_len > 0
}

/// Whether the image stage (and OCR) runs.
pub fn image_stage_runs(t: ItemType, file_len: usize) -> (r: bool)
    ensures
        r == runs_image_stage(t, file_len as int),
{
    t == ItemType::Image && file_len > 0
}

/// Whether the video stage runs.
pub fn video_stage_runs(t: ItemType, file_len: usize) -> (r: bool)
    ensures
        r == runs_video_stage(t, file_len as int),
{
    t == ItemType::Video && file_len > 0
}

/// The OCR text of an answer: trimmed, and none when that is empty or "空".
pub open spec fn ocr_text_spec(answer: Seq<char>) -> Option<Seq<char>> {
    let t = trim_spec(answer);
    if t.len() == 0 || t == OCR_EMPTY@ { None } else { Some(t) }
}

/// The OCR text of the service's answer.
pub fn ocr_text(answer: &str) -> (r: Option<String>)
    ensures
        match r {
            Some(t) => ocr_text_spec(answer@) == Some(t@),
            None => ocr_text_spec(answer@).is_none(),
        },
{
    let t = trim(answer);
    if t.unicode_len() == 0 || str_eq(t, OCR_EMPTY) {
        None
    } else {
        Some(String::from_str(t))
    }
}

/// The searchable text: the content text, with the OCR text after a newline
/// (or alone when the content text is empty).
pub open spec fn searchable_text_spec(content: Seq<char>, ocr: Option<Seq<char>>) -> Seq<char> {
    match ocr {
        Some(o) => if content.len() == 0 { o } else { content + seq!['\n'] + o },
        None => content,
    }
}

/// The searchable text of an item.
pub fn searchable_text(content: &str, ocr: Option<&str>) -> (r: String)
    ensures
        r@ == searchable_text_spec(content@, match ocr { Some(o) => Some(o@), None => None }),
{
    match ocr {
        Some(o) => {
            if content.unicode_len() == 0 {
                String::from_str(o)
            } else {
                proof {
                    reveal_strlit("\n");
                }
                let mut s = String::from_str(content);
                s.append("\n");
                s.append(o);
                s
            }
        },
        None => String::from_str(content),
    }
}

/// Whether the text embedding is requested: the searchable text is not empty.
pub fn wants_text_embedding(searchable: &str) -> (r: bool)
    ensures
        r == (searchable@.len() > 0),
{
    searchable.unicode_len() > 0
}

/// Which bytes the visual embedding reads.
#[derive(Debug, Clone, Copy, PartialEq, Eq, Structural)]
pub enum VisualSource {
    /// The downloaded image.
    File,
    /// The video's cover frame.
    Cover,
    /// None: no visual embedding.
    Nothing,
}

/// The bytes of the visual embedding: an image's file, a video's cover frame.
pub open spec fn visual_source_spec(t: ItemType, file_len: int, cover_len: int) -> VisualSource {
    if t == ItemType::Image && file_len > 0 {
        VisualSource::File
    } else if t == ItemType::Video && cover_len > 0 {
        VisualSource::Cover
    } else {
        VisualSource::Nothing
    }
}

/// Which bytes the visual embedding reads.
pub fn visual_source(t: ItemType, file_len: usize, cover_len: usize) -> (r: VisualSource)
    ensures
        r == visual_source_spec(t, file_len as int, cover_len as int),
{
    if t == ItemType::Image && file_len > 0 {
        VisualSource::File
    } else if t == ItemType::Video && cover_len > 0 {
        VisualSource::Cover
    } else {
        VisualSource::Nothing
    }
}

/// The (width, height) of the image that `b` encodes, if it decodes.
pub uninterp spec fn image_size_of(b: Seq<u8>) -> Option<(int, int)>;

/// The JPEG thumbnail, longest edge at most `edge`, of the image `b` encodes,
/// if it decodes and encodes.
pub uninterp spec fn jpeg_thumbnail_of(b: Seq<u8>, edge: int) -> Option<Seq<u8>>;

/// Relies on `image::load_from_memory` and `DynamicImage::{width, height}`:
/// the size of the decoded image, or `None` when the bytes do not decode.
#[verifier::external_body]
fn image_size(b: &[u8]) -> (r: Option<(u32, u32)>)
    ensures
        match r {
            Some((w, h)) => image_size_of(b@) == Some((w as int, h as int)),
            None => image_size_of(b@).is_none(),
        },
{
    match image::load_from_memory(b) {
        Ok(img) => Some((img.width(), img.height())),
        Err(_) => None,
    }
}

/// Relies on `image::load_from_memory`, `DynamicImage::thumbnail` and
/// `DynamicImage::write_to` with `ImageFormat::Jpeg`: the JPEG bytes of the
/// image scaled to fit `edge` by `edge`, or `None` when a step fails.
#[verifier::external_body]
fn jpeg_thumbnail(b: &[u8], edge: u32) -> (r: Option<Vec<u8>>)
    ensures
        match r {
            Some(t) => jpeg_thumbnail_of(b@, edge as int) == Some(t@),
            None => jpeg_thumbnail_of(b@, edge as int).is_none(),
        },
{
    let img = match image::load_from_memory(b) {
        Ok(img) => img,
        Err(_) => return None,
    };
    let mut buf = std::io::Cursor::new(Vec::new());
    match img.thumbnail(edge, edge).write_to(&mut buf, image::ImageFormat::Jpeg) {
        Ok(()) => Some(buf.into_inner()),
        Err(_) => None,
    }
}

/// What the image stage learns of an image.
#[derive(Debug, Clone)]
pub struct ImageFacts {
    pub width: u32,
    pub height: u32,
    /// The size of the file in bytes.
    pub file_size: usize,
    /// The JPEG thumbnail, when one could be made.
    pub thumbnail: Option<Vec<u8>>,
}

/// The image stage: the size and the thumbnail of an image; `None` when the
/// bytes do not decode.
pub fn image_facts(b: &[u8]) -> (r: Option<ImageFacts>)
    ensures
        match r {
            Some(f) => {
                &&& image_size_of(b@) == Some((f.width as int, f.height as int))
                &&& f.file_size == b@.len()
                &&& match f.thumbnail {
                    Some(t) => jpeg_thumbnail_of(b@, THUMBNAIL_EDGE as int) == Some(t@),
                    None => jpeg_thumbnail_of(b@, THUMBNAIL_EDGE as int).is_none(),
                }
            },
            None => image_size_of(b@).is_none(),
        },
{
    match image_size(b) {
        Some((w, h)) => Some(ImageFacts {
            width: w,
            height: h,
            file_size: b.len(),
            thumbnail: jpeg_thumbnail(b, THUMBNAIL_EDGE),
        }),
        None => None,
    }
}

/// The standard base64 digit for `v` (`0 <= v < 64`).
pub open spec fn b64_char(v: nat) -> char {
    if v < 26 {
        ((65 + v) as u32) as char
    } else if v < 52 {
        ((71 + v) as u32) as char
    } else if v < 62 {
        ((v - 4) as u32) as char
    } else if v == 62 {
        '+'
    } else {
        '/'
    }
}

/// The standard base64 text of `b`: four digits per group of three bytes,
/// the last group padded with `=`.
pub open spec fn base64_of(b: Seq<u8>) -> Seq<char>
    decreases b.len(),
{
    if b.len() == 0 {
        Seq::empty()
    } else if b.len() == 1 {
        seq![b64_char((b[0] / 4) as nat), b64_char(((b[0] % 4) * 16) as nat), '=', '=']
    } else if b.len() == 2 {
        seq![b64_char((b[0] / 4) as nat), b64_char(((b[0] % 4) * 16 + b[1] / 16) as nat),
            b64_char(((b[1] % 16) * 4) as nat), '=']
    } else {
        seq![b64_char((b[0] / 4) as nat), b64_char(((b[0] % 4) * 16 + b[1] / 16) as nat),
            b64_char(((b[1] % 16) * 4 + b[2] / 64) as nat), b64_char((b[2] % 64) as nat)]
            + base64_of(b.subrange(3, b.len() as int))
    }
}

/// Relies on `base64::engine::general_purpose::STANDARD.encode`: the standard
/// alphabet with padding.
#[verifier::external_body]
fn base64_encode(b: &[u8]) -> (r: String)
    ensures
        r@ == base64_of(b@),
{
    base64::Engine::encode(&base64::engine::general_purpose::STANDARD, b)
}

/// The data URL that carries an image to the OCR service.
pub fn ocr_image_url(b: &[u8]) -> (r: String)
    ensures
        r@ == JPEG_DATA_URL_PREFIX@ + base64_of(b@),
{
    let mut s = String::from_str(JPEG_DATA_URL_PREFIX);
    let e = base64_encode(b);
    s.append(e.as_str());
    s
}

} // verus!
