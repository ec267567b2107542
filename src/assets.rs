//! Object-store keys and blob payloads: media and thumbnail keys under a date
//! prefix, avatar and custom-emoji keys, the `PROXY:` sentinel that stores a
//! key in a URL column, and the sideloaded custom-emoji asset.

use vstd::prelude::*;
use crate::text::{dec_int, push_i64, str_eq};

verus! {

/// What a stored URL holds when it names an object-store key.
pub const PROXY_PREFIX: &'static str = "PROXY:";

/// The directory of custom-emoji assets.
pub const CUSTOM_EMOJI_DIR: &'static str = "tags/custom_emoji/";

/// The directory of entity avatars.
pub const AVATAR_DIR: &'static str = "avatars/";

/// The suffix of a thumbnail key.
pub const THUMB_SUFFIX: &'static str = "_thumb.jpg";

/// ASCII lower case of one character.
pub open spec fn ascii_lower(c: char) -> char {
    if 'A' <= c && c <= 'Z' { ((c as u32) + 32) as char } else { c }
}

/// ASCII lower case of a text.
pub open spec fn ascii_lower_seq(s: Seq<char>) -> Seq<char> {
    s.map_values(|c: char| ascii_lower(c))
}

/// The one-character string of the lower-case letter for the upper-case `c`.
fn lower_letter(c: char) -> (r: &'static str)
    requires
        'A' <= c && c <= 'Z',
    ensures
        r@ == seq![ascii_lower(c)],
{
    proof {
        reveal_strlit("a"); reveal_strlit("b"); reveal_strlit("c"); reveal_strlit("d");
        reveal_strlit("e"); reveal_strlit("f"); reveal_strlit("g"); reveal_strlit("h");
        reveal_strlit("i"); reveal_strlit("j"); reveal_strlit("k"); reveal_strlit("l");
        reveal_strlit("m"); reveal_strlit("n"); reveal_strlit("o"); reveal_strlit("p");
        reveal_strlit("q"); reveal_strlit("r"); reveal_strlit("s"); reveal_strlit("t");
        reveal_strlit("u"); reveal_strlit("v"); reveal_strlit("w"); reveal_strlit("x");
        reveal_strlit("y"); reveal_strlit("z");
    }
    match c {
        'A' => "a", 'B' => "b", 'C' => "c", 'D' => "d", 'E' => "e", 'F' => "f", 'G' => "g",
        'H' => "h", 'I' => "i", 'J' => "j", 'K' => "k", 'L' => "l", 'M' => "m", 'N' => "n",
        'O' => "o", 'P' => "p", 'Q' => "q", 'R' => "r", 'S' => "s", 'T' => "t", 'U' => "u",
        'V' => "v", 'W' => "w", 'X' => "x", 'Y' => "y", _ => "z",
    }
}

/// ASCII lower case of a text: letters `A` to `Z` mapped to `a` to `z`,
/// every other character unchanged.
pub fn to_ascii_lower(s: &str) -> (r: String)
    ensures
        r@ == ascii_lower_seq(s@),
{
    let n = s.unicode_len();
    let mut out = String::new();
    let mut i: usize = 0;
    while i < n
        invariant
            n == s@.len(),
            i <= n,
            out@ == ascii_lower_seq(s@.subrange(0, i as int)),
        decreases n - i,
    {
        let c = s.get_char(i);
        if 'A' <= c && c <= 'Z' {
            out.append(lower_letter(c));
        } else {
            let one = s.substring_char(i, i + 1);
            assert(one@ =~= seq![c]);
            out.append(one);
        }
        assert(ascii_lower_seq(s@.subrange(0, i as int + 1)) =~= ascii_lower_seq(s@.subrange(0, i as int)).push(ascii_lower(c)));
        i = i + 1;
    }
    assert(s@.subrange(0, n as int) =~= s@);
    out
}

/// The text after the last `.` of a path, or the whole path without one.
pub open spec fn extension_of(s: Seq<char>) -> Seq<char>
    decreases s.len(),
{
    if s.len() == 0 {
        s
    } else if s.last() == '.' {
        Seq::empty()
    } else {
        extension_of(s.drop_last()).push(s.last())
    }
}

/// The text after the last `.` of a path, or the whole path without one.
pub fn path_extension(path: &str) -> (r: &str)
    ensures
        r@ == extension_of(path@),
{
    let n = path.unicode_len();
    let mut i: usize = n;
    assert(path@.subrange(0, n as int) =~= path@);
    assert(extension_of(path@) =~= extension_of(path@.subrange(0, n as int)) + path@.subrange(n as int, n as int));
    while i > 0 && path.get_char(i - 1) != '.'
        invariant
            i <= n,
            n == path@.len(),
            extension_of(path@) == extension_of(path@.subrange(0, i as int)) + path@.subrange(i as int, n as int),
        decreases i,
    {
        proof {
            let p = path@.subrange(0, i as int);
            assert(p.drop_last() =~= path@.subrange(0, i - 1));
            assert(p.last() == path@[i - 1]);
            assert(extension_of(p) == extension_of(path@.subrange(0, i - 1)).push(path@[i - 1]));
            assert(extension_of(path@.subrange(0, i - 1)).push(path@[i - 1]) + path@.subrange(i as int, n as int)
                =~= extension_of(path@.subrange(0, i - 1)) + path@.subrange(i - 1, n as int));
        }
        i = i - 1;
    }
    proof {
        if i > 0 {
            let p = path@.subrange(0, i as int);
            assert(p.last() == path@[i - 1]);
            assert(extension_of(p) == Seq::<char>::empty());
        } else {
            assert(path@.subrange(0, 0) =~= Seq::<char>::empty());
        }
        assert(extension_of(path@) =~= path@.subrange(i as int, n as int));
    }
    path.substring_char(i, n)
}

/// The extension of a path, or `default` when it has none: `extension_of`
/// gives the whole path exactly when it holds no `.`, and nothing when it
/// ends with one.
pub open spec fn extension_or(path: Seq<char>, default: Seq<char>) -> Seq<char> {
    let e = extension_of(path);
    if e.len() == 0 || e.len() == path.len() { default } else { e }
}

/// The extension of a path, or `default` when it has none.
pub fn file_extension<'a>(path: &'a str, default: &'a str) -> (r: &'a str)
    ensures
        r@ == extension_or(path@, default@),
{
    let e = path_extension(path);
    let n = e.unicode_len();
    if n == 0 || n == path.unicode_len() {
        default
    } else {
        e
    }
}

/// The stored URL that names the object-store key `key`.
pub open spec fn proxy_url_spec(key: Seq<char>) -> Seq<char> {
    PROXY_PREFIX@ + key
}

/// The stored URL that names the object-store key `key`.
pub fn proxy_url(key: &str) -> (r: String)
    ensures
        r@ == proxy_url_spec(key@),
{
    let mut s = String::from_str(PROXY_PREFIX);
    s.append(key);
    s
}

/// The object-store key a stored URL names, if it names one.
pub open spec fn proxy_key_spec(url: Seq<char>) -> Option<Seq<char>> {
    let n = PROXY_PREFIX@.len();
    if url.len() >= n && url.subrange(0, n as int) == PROXY_PREFIX@ {
        Some(url.subrange(n as int, url.len() as int))
    } else {
        None
    }
}

/// The object-store key a stored URL names, if it names one.
pub fn proxy_key(url: &str) -> (r: Option<&str>)
    ensures
        match r {
            Some(k) => proxy_key_spec(url@) == Some(k@),
            None => proxy_key_spec(url@).is_none(),
        },
{
    let n = PROXY_PREFIX.unicode_len();
    let m = url.unicode_len();
    if m >= n && str_eq(url.substring_char(0, n), PROXY_PREFIX) {
        Some(url.substring_char(n, m))
    } else {
        None
    }
}

/// The avatar key of entity `id`, with the extension of the transport path
/// (`jpg` when it has none).
pub open spec fn avatar_key_spec(id: i64, path: Seq<char>) -> Seq<char> {
    AVATAR_DIR@ + dec_int(id as int) + seq!['.'] + extension_or(path, "jpg"@)
}

/// The avatar key of entity `id`, with the extension of the transport path.
pub fn avatar_key(id: i64, path: &str) -> (r: String)
    ensures
        r@ == avatar_key_spec(id, path@),
{
    let mut s = String::from_str(AVATAR_DIR);
    push_i64(&mut s, id);
    proof {
        reveal_strlit(".");
    }
    s.append(".");
    s.append(file_extension(path, "jpg"));
    assert(s@ =~= avatar_key_spec(id, path@));
    s
}

/// The key of a media blob: `<date path>/<uuid>.<ext>`.
pub open spec fn media_key_spec(date_path: Seq<char>, uuid: Seq<char>, ext: Seq<char>) -> Seq<char> {
    date_path + seq!['/'] + uuid + seq!['.'] + ext
}

/// The key of a thumbnail: `<date path>/<uuid>_thumb.jpg`.
pub open spec fn thumbnail_key_spec(date_path: Seq<char>, uuid: Seq<char>) -> Seq<char> {
    date_path + seq!['/'] + uuid + THUMB_SUFFIX@
}

/// The key of a media blob.
pub fn media_key(date_path: &str, uuid: &str, ext: &str) -> (r: String)
    ensures
        r@ == media_key_spec(date_path@, uuid@, ext@),
{
    proof {
        reveal_strlit("/");
        reveal_strlit(".");
    }
    let mut s = String::from_str(date_path);
    s.append("/");
    s.append(uuid);
    s.append(".");
    s.append(ext);
    assert(s@ =~= media_key_spec(date_path@, uuid@, ext@));
    s
}

/// The key of a thumbnail.
pub fn thumbnail_key(date_path: &str, uuid: &str) -> (r: String)
    ensures
        r@ == thumbnail_key_spec(date_path@, uuid@),
{
    proof {
        reveal_strlit("/");
    }
    let mut s = String::from_str(date_path);
    s.append("/");
    s.append(uuid);
    s.append(THUMB_SUFFIX);
    assert(s@ =~= thumbnail_key_spec(date_path@, uuid@));
    s
}


/// The bytes that a gzip stream `data` decompresses to, if it is one.
pub uninterp spec fn gunzip_of(data: Seq<u8>) -> Option<Seq<u8>>;

#[verifier::external_type_specification]
#[verifier::external_body]
pub struct ExIoError(std::io::Error);

/// Relies on `flate2::read::GzDecoder` read to its end: the decompressed
/// bytes of an in-memory gzip stream, or an error when it is not one.
#[verifier::external_body]
fn gunzip(data: &[u8]) -> (r: Result<Vec<u8>, std::io::Error>)
    ensures
        match r {
            Ok(v) => gunzip_of(data@) == Some(v@),
            Err(_) => gunzip_of(data@).is_none(),
        },
{
    let mut decoder = flate2::read::GzDecoder::new(data);
    let mut out: Vec<u8> = Vec::new();
    match std::io::Read::read_to_end(&mut decoder, &mut out) {
        Ok(_) => Ok(out),
        Err(e) => Err(e),
    }
}

/// Why a custom-emoji asset could not be prepared.
#[derive(Debug, Clone, Copy, PartialEq, Eq, Structural)]
pub enum AssetError {
    /// A Lottie sticker whose gzip payload does not decompress.
    Decompress,
}

/// A custom-emoji asset ready for upload.
#[derive(Debug, Clone)]
pub struct StickerAsset {
    /// The object-store key.
    pub key: String,
    /// The bytes to store.
    pub bytes: Vec<u8>,
    /// Their content type.
    pub mime: String,
    /// The URL to record on the tag.
    pub asset_url: String,
}

/// The stored extension for a sticker file extension (already lower case):
/// Lottie `.tgs` is stored as its JSON.
pub open spec fn sticker_ext_spec(e: Seq<char>) -> Seq<char> {
    if e == "tgs"@ { "json"@ } else { e }
}

/// The content type of a sticker by its file extension (already lower case).
pub open spec fn sticker_mime_spec(e: Seq<char>) -> Seq<char> {
    if e == "tgs"@ {
        "application/json+lottie"@
    } else if e == "webp"@ {
        "image/webp"@
    } else if e == "webm"@ {
        "video/webm"@
    } else {
        "application/octet-stream"@
    }
}

/// The key of the asset of the tag `tag_id`.
pub open spec fn sticker_key_spec(tag_id: i32, ext: Seq<char>) -> Seq<char> {
    CUSTOM_EMOJI_DIR@ + dec_int(tag_id as int) + seq!['.'] + ext
}

/// Prepares the asset of the custom-emoji tag `tag_id` from its sticker file,
/// stored under the tag's id, downloaded
/// from `path` (its extension, `bin` when it has none, taken in lower case):
/// a Lottie `.tgs` is decompressed to JSON, anything else is stored as it came.
pub fn sticker_asset(path: &str, tag_id: i32, raw: Vec<u8>) -> (r: Result<StickerAsset, AssetError>)
    ensures
        ({
            let e = ascii_lower_seq(extension_or(path@, "bin"@));
            &&& (e == "tgs"@ ==> (r is Ok <==> gunzip_of(raw@).is_some()))
            &&& (e != "tgs"@ ==> r is Ok)
            &&& match r {
                Ok(a) => {
                    &&& a.bytes@ == (if e == "tgs"@ { gunzip_of(raw@).unwrap() } else { raw@ })
                    &&& a.mime@ == sticker_mime_spec(e)
                    &&& a.key@ == sticker_key_spec(tag_id, sticker_ext_spec(e))
                    &&& a.asset_url@ == proxy_url_spec(a.key@)
                },
                Err(err) => err == AssetError::Decompress,
            }
        }),
{
    let ext = to_ascii_lower(file_extension(path, "bin"));
    let (bytes, stored_ext, mime) = if str_eq(ext.as_str(), "tgs") {
        match gunzip(raw.as_slice()) {
            Ok(json) => (json, String::from_str("json"), "application/json+lottie"),
            Err(_) => {
                return Err(AssetError::Decompress);
            },
        }
    } else if str_eq(ext.as_str(), "webp") {
        (raw, ext, "image/webp")
    } else if str_eq(ext.as_str(), "webm") {
        (raw, ext, "video/webm")
    } else {
        (raw, ext, "application/octet-stream")
    };
    proof {
        reveal_strlit(".");
    }
    let mut key = String::from_str(CUSTOM_EMOJI_DIR);
    push_i64(&mut key, tag_id as i64);
    key.append(".");
    key.append(stored_ext.as_str());
    let asset_url = proxy_url(key.as_str());
    assert(key@ =~= sticker_key_spec(tag_id, stored_ext@));
    Ok(StickerAsset { key, bytes, mime: String::from_str(mime), asset_url })
}

/// The date path (`YYYY/MM/DD`, UTC) of a Unix time, if chrono can represent it.
pub uninterp spec fn date_path_of(secs: int) -> Option<Seq<char>>;

/// Relies on `chrono::DateTime::from_timestamp` and its `format("%Y/%m/%d")`:
/// the UTC calendar date of the Unix time as `YYYY/MM/DD`, or `None` out of
/// chrono's range.
#[verifier::external_body]
fn utc_date_path(secs: i64) -> (r: Option<String>)
    ensures
        match r {
            Some(p) => date_path_of(secs as int) == Some(p@),
            None => date_path_of(secs as int).is_none(),
        },
{
    match chrono::DateTime::from_timestamp(secs, 0) {
        Some(d) => Some(d.format("%Y/%m/%d").to_string()),
        None => None,
    }
}

/// Relies on `uuid::Uuid::new_v4`: a random UUID in its hyphenated form,
/// 36 characters.
#[verifier::external_body]
fn new_uuid() -> (r: String)
    ensures
        r@.len() == 36,
{
    uuid::Uuid::new_v4().to_string()
}

/// A fresh key for a media blob stored at Unix time `now`, with extension
/// `ext`: under the day's date path, named by a random UUID.
pub fn new_media_key(now: i64, ext: &str) -> (r: Option<String>)
    ensures
        r.is_some() == date_path_of(now as int).is_some(),
        r matches Some(k) ==> exists|u: Seq<char>| u.len() == 36
            && k@ == media_key_spec(date_path_of(now as int).unwrap(), u, ext@),
{
    match utc_date_path(now) {
        Some(d) => {
            let u = new_uuid();
            let k = media_key(d.as_str(), u.as_str(), ext);
            assert(k@ == media_key_spec(date_path_of(now as int).unwrap(), u@, ext@));
            Some(k)
        },
        None => None,
    }
}

/// A fresh key for a thumbnail stored at Unix time `now`.
pub fn new_thumbnail_key(now: i64) -> (r: Option<String>)
    ensures
        r.is_some() == date_path_of(now as int).is_some(),
        r matches Some(k) ==> exists|u: Seq<char>| u.len() == 36
            && k@ == thumbnail_key_spec(date_path_of(now as int).unwrap(), u),
{
    match utc_date_path(now) {
        Some(d) => {
            let u = new_uuid();
            let k = thumbnail_key(d.as_str(), u.as_str());
            assert(k@ == thumbnail_key_spec(date_path_of(now as int).unwrap(), u@));
            Some(k)
        },
        None => None,
    }
}

} // verus!
