//! The content hash of an item: MD5 of the file, of the text, or of both
//! digests' hexadecimal forms, written in lower-case hexadecimal.

use vstd::prelude::*;
use vstd::string::StringSliceAdditionalSpecFns;
use crate::text::{hex_lower, hex_of, lemma_hex_len};

verus! {

/// The MD5 digest of `data`.
pub uninterp spec fn md5_of(data: Seq<u8>) -> Seq<u8>;

/// Relies on `md5::compute`: the MD5 digest of the bytes, 16 bytes long.
#[verifier::external_body]
fn md5_digest(data: &[u8]) -> (r: Vec<u8>)
    ensures
        r@ == md5_of(data@),
        r@.len() == 16,
{
    md5::compute(data).0.to_vec()
}

/// The ASCII code of the lower-case hexadecimal digit `d`.
pub open spec fn hex_code(d: nat) -> u8 {
    if d < 10 { (48 + d) as u8 } else { (87 + d) as u8 }
}

/// The ASCII bytes of the lower-case hexadecimal form of `bs`.
pub open spec fn hex_ascii(bs: Seq<u8>) -> Seq<u8>
    decreases bs.len(),
{
    if bs.len() == 0 {
        Seq::empty()
    } else {
        let b = bs.last();
        hex_ascii(bs.drop_last()) + seq![hex_code((b / 16) as nat), hex_code((b % 16) as nat)]
    }
}

/// The lower-case hexadecimal MD5 of `data`.
pub open spec fn md5_hex(data: Seq<u8>) -> Seq<char> {
    hex_of(md5_of(data))
}

/// The content hash of an item with file bytes `file` and text bytes `text`:
/// with both, the MD5 of the two digests' hexadecimal forms one after the
/// other; with one, its MD5.
pub open spec fn content_hash_spec(file: Seq<u8>, text: Seq<u8>) -> Seq<char> {
    if file.len() > 0 && text.len() > 0 {
        md5_hex(hex_ascii(md5_of(file)) + hex_ascii(md5_of(text)))
    } else if file.len() > 0 {
        md5_hex(file)
    } else {
        md5_hex(text)
    }
}

/// The bytes that the combined hash digests: the hexadecimal forms of the
/// file digest and of the text digest, one after the other.
pub fn combined_digest_input(file_digest: &[u8], text_digest: &[u8]) -> (r: Vec<u8>)
    ensures
        r@ == hex_ascii(file_digest@) + hex_ascii(text_digest@),
{
    let mut out = hex_ascii_bytes(file_digest);
    let t = hex_ascii_bytes(text_digest);
    let ghost a = out@;
    let mut i: usize = 0;
    while i < t.len()
        invariant
            i <= t@.len(),
            out@ == a + t@.subrange(0, i as int),
        decreases t@.len() - i,
    {
        out.push(t[i]);
        assert(a + t@.subrange(0, i as int + 1) =~= (a + t@.subrange(0, i as int)).push(t@[i as int]));
        i = i + 1;
    }
    assert(t@.subrange(0, i as int) =~= t@);
    out
}

/// The ASCII bytes of the lower-case hexadecimal form of `bs`.
fn hex_ascii_bytes(bs: &[u8]) -> (r: Vec<u8>)
    ensures
        r@ == hex_ascii(bs@),
{
    let mut out: Vec<u8> = Vec::new();
    let mut i: usize = 0;
    while i < bs.len()
        invariant
            i <= bs@.len(),
            out@ == hex_ascii(bs@.subrange(0, i as int)),
        decreases bs@.len() - i,
    {
        let b = bs[i];
        let hi = b / 16;
        let lo = b % 16;
        out.push(if hi < 10 { 48 + hi } else { 87 + hi });
        out.push(if lo < 10 { 48 + lo } else { 87 + lo });
        proof {
            let p = bs@.subrange(0, i as int + 1);
            assert(p.drop_last() =~= bs@.subrange(0, i as int));
            assert(p.last() == b);
            assert(out@ =~= hex_ascii(p));
        }
        i = i + 1;
    }
    assert(bs@.subrange(0, bs@.len() as int) =~= bs@);
    out
}

/// The content hash of an item, in lower-case hexadecimal.
pub fn content_hash(file: &[u8], text: &str) -> (r: String)
    ensures
        r@ == content_hash_spec(file@, text.spec_bytes()),
        r@.len() == 32,
{
    let tb = text.as_bytes();
    if file.len() > 0 && tb.len() > 0 {
        let fd = md5_digest(file);
        let td = md5_digest(tb);
        let input = combined_digest_input(fd.as_slice(), td.as_slice());
        let d = md5_digest(input.as_slice());
        proof { lemma_hex_len(d@); }
        hex_lower(d.as_slice())
    } else if file.len() > 0 {
        let d = md5_digest(file);
        proof { lemma_hex_len(d@); }
        hex_lower(d.as_slice())
    } else {
        let d = md5_digest(tb);
        proof { lemma_hex_len(d@); }
        hex_lower(d.as_slice())
    }
}

/// The content hash depends on the file and the text alone, and for an item
/// with text only it is the MD5 of the text.
pub proof fn lemma_content_hash_stable(file: Seq<u8>, text: Seq<u8>, file2: Seq<u8>, text2: Seq<u8>)
    requires
        file == file2,
        text == text2,
    ensures
        content_hash_spec(file, text) == content_hash_spec(file2, text2),
        file.len() == 0 ==> content_hash_spec(file, text) == md5_hex(text),
{
}

} // verus!
