use brainpile_core::assets::{
    avatar_key, file_extension, to_ascii_lower, media_key, new_media_key, new_thumbnail_key, path_extension, proxy_key, proxy_url,
    sticker_asset, thumbnail_key, AssetError,
};
use brainpile_core::hashing::{combined_digest_input, content_hash};
use brainpile_core::payload::{group_key, group_number, payload_tag_ids, GroupField, ItemType};
use brainpile_core::pipeline::{
    file_to_download, image_facts, image_stage_runs, ocr_image_url, ocr_text, searchable_text,
    video_stage_runs, visual_source, wants_text_embedding, VisualSource,
};
use std::io::Write;

#[test]
fn text_only_hash_is_md5_of_text() {
    assert_eq!(content_hash(b"", "hello world"), "5eb63bbbe01eeed093cb22bb8f5acdc3");
}

#[test]
fn file_only_hash_is_md5_of_file() {
    assert_eq!(content_hash(b"hello world", ""), "5eb63bbbe01eeed093cb22bb8f5acdc3");
}

#[test]
fn hash_of_file_and_text_combines_digests() {
    let hf = content_hash(b"abc", "");
    let ht = content_hash(b"", "xyz");
    let combined = format!("{}{}", hf, ht);
    let expected = content_hash(combined.as_bytes(), "");
    assert_eq!(content_hash(b"abc", "xyz"), expected);
    assert_ne!(expected, hf);
    assert_eq!(content_hash(b"abc", "xyz"), content_hash(b"abc", "xyz"));
}

#[test]
fn combined_input_is_hex_of_both() {
    assert_eq!(combined_digest_input(&[0xab, 0x01], &[0xff]), b"ab01ff".to_vec());
}

#[test]
fn empty_hash_is_md5_of_nothing() {
    assert_eq!(content_hash(b"", ""), "d41d8cd98f00b204e9800998ecf8427e");
}

#[test]
fn ocr_answer_cleanup() {
    assert_eq!(ocr_text("  INVOICE 2024 \n"), Some("INVOICE 2024".to_string()));
    assert_eq!(ocr_text("\u{7A7A}"), None);
    assert_eq!(ocr_text(" \u{7A7A} "), None);
    assert_eq!(ocr_text("   "), None);
}

#[test]
fn searchable_text_joins_ocr() {
    assert_eq!(searchable_text("", Some("INVOICE 2024")), "INVOICE 2024");
    assert_eq!(searchable_text("caption", Some("INVOICE 2024")), "caption\nINVOICE 2024");
    assert_eq!(searchable_text("hello world", None), "hello world");
    assert!(wants_text_embedding("hello world"));
    assert!(!wants_text_embedding(""));
}

#[test]
fn stages_by_item_type() {
    assert!(image_stage_runs(ItemType::Image, 10));
    assert!(!image_stage_runs(ItemType::Image, 0));
    assert!(!image_stage_runs(ItemType::Text, 10));
    assert!(video_stage_runs(ItemType::Video, 3));
    assert_eq!(visual_source(ItemType::Image, 5, 0), VisualSource::File);
    assert_eq!(visual_source(ItemType::Video, 5, 9), VisualSource::Cover);
    assert_eq!(visual_source(ItemType::Video, 5, 0), VisualSource::Nothing);
    assert_eq!(visual_source(ItemType::Text, 0, 0), VisualSource::Nothing);
    assert_eq!(file_to_download(&Some("F1".to_string())), Some("F1"));
    assert_eq!(file_to_download(&Some(String::new())), None);
    assert_eq!(file_to_download(&None), None);
}

#[test]
fn image_ingest_facts() {
    let img = image::RgbImage::new(640, 480);
    let mut buf = std::io::Cursor::new(Vec::new());
    image::DynamicImage::ImageRgb8(img).write_to(&mut buf, image::ImageFormat::Jpeg).unwrap();
    let bytes = buf.into_inner();
    let f = image_facts(&bytes).unwrap();
    assert_eq!((f.width, f.height), (640, 480));
    assert_eq!(f.file_size, bytes.len());
    let thumb = f.thumbnail.unwrap();
    let t = image::load_from_memory(&thumb).unwrap();
    assert_eq!((t.width(), t.height()), (800, 600));
    assert!(image_facts(b"not an image").is_none());
}

#[test]
fn large_image_thumbnail_fits_edge() {
    let img = image::RgbImage::new(1600, 400);
    let mut buf = std::io::Cursor::new(Vec::new());
    image::DynamicImage::ImageRgb8(img).write_to(&mut buf, image::ImageFormat::Png).unwrap();
    let f = image_facts(&buf.into_inner()).unwrap();
    let t = image::load_from_memory(&f.thumbnail.unwrap()).unwrap();
    assert_eq!((t.width(), t.height()), (800, 200));
}

#[test]
fn ocr_url_is_base64_data_url() {
    assert_eq!(ocr_image_url(b"hi"), "data:image/jpeg;base64,aGk=");
    assert_eq!(ocr_image_url(b"Man"), "data:image/jpeg;base64,TWFu");
    assert_eq!(ocr_image_url(&[0xff, 0xfe]), "data:image/jpeg;base64,//4=");
    assert_eq!(ocr_image_url(&[0xfb, 0xef, 0xbe, 0x00]), "data:image/jpeg;base64,++++AA==");
    assert_eq!(ocr_image_url(b""), "data:image/jpeg;base64,");
}

#[test]
fn group_fields() {
    assert_eq!(group_key(&GroupField::Text("G1".to_string())), Some("G1".to_string()));
    assert_eq!(group_key(&GroupField::Text("  ".to_string())), None);
    assert_eq!(group_key(&GroupField::Integer(-42)), Some("-42".to_string()));
    assert_eq!(group_key(&GroupField::OtherNumber("1.5".to_string())), Some("1.5".to_string()));
    assert_eq!(group_key(&GroupField::Absent), None);
    assert_eq!(group_number(&GroupField::Text("123".to_string())), Some(123));
    assert_eq!(group_number(&GroupField::Text("G1".to_string())), None);
    assert_eq!(group_number(&GroupField::Text("-9223372036854775808".to_string())), Some(i64::MIN));
    assert_eq!(group_number(&GroupField::Text("9223372036854775808".to_string())), None);
    assert_eq!(group_number(&GroupField::Integer(7)), Some(7));
    assert_eq!(group_number(&GroupField::Other), None);
}

#[test]
fn inherited_tag_ids() {
    let raw = vec![Some(1), None, Some(3_000_000_000), Some(-2), Some(1)];
    assert_eq!(payload_tag_ids(&raw), vec![1, -2, 1]);
}

#[test]
fn item_type_names() {
    assert_eq!(ItemType::from_name("image"), ItemType::Image);
    assert_eq!(ItemType::from_name("video"), ItemType::Video);
    assert_eq!(ItemType::from_name("audio"), ItemType::Text);
    assert_eq!(ItemType::Video.name(), "video");
}

#[test]
fn object_keys() {
    assert_eq!(media_key("2024/01/02", "abc", "jpg"), "2024/01/02/abc.jpg");
    assert_eq!(thumbnail_key("2024/01/02", "abc"), "2024/01/02/abc_thumb.jpg");
    assert_eq!(avatar_key(-100123, "photos/file_5.jpg"), "avatars/-100123.jpg");
    assert_eq!(path_extension("a/b.c/file.TGS"), "TGS");
    assert_eq!(path_extension("noext"), "noext");
    assert_eq!(file_extension("noext", "bin"), "bin");
    assert_eq!(file_extension("videos/file_3.MP4", "bin"), "MP4");
    assert_eq!(file_extension("odd.", "bin"), "bin");
    assert_eq!(avatar_key(5, "profile_photos/file_9"), "avatars/5.jpg");
    assert_eq!(proxy_url("avatars/1.jpg"), "PROXY:avatars/1.jpg");
    assert_eq!(proxy_key("PROXY:tags/custom_emoji/5.json"), Some("tags/custom_emoji/5.json"));
    assert_eq!(proxy_key("https://example.com/a.png"), None);
}

#[test]
fn fresh_keys_use_the_date_path() {
    let k = new_media_key(1_704_153_600, "jpg").unwrap();
    assert!(k.starts_with("2024/01/02/"));
    assert!(k.ends_with(".jpg"));
    assert_eq!(k.len(), "2024/01/02/".len() + 36 + 4);
    let t = new_thumbnail_key(1_704_153_600).unwrap();
    assert!(t.starts_with("2024/01/02/") && t.ends_with("_thumb.jpg"));
    assert_ne!(new_media_key(0, "bin"), new_media_key(0, "bin"));
}

#[test]
fn sticker_assets() {
    let mut enc = flate2::write::GzEncoder::new(Vec::new(), flate2::Compression::default());
    enc.write_all(b"{\"v\":1}").unwrap();
    let gz = enc.finish().unwrap();
    let a = sticker_asset("stickers/file_1.tgs", 7, gz).unwrap();
    assert_eq!(a.bytes, b"{\"v\":1}".to_vec());
    assert_eq!(a.key, "tags/custom_emoji/7.json");
    assert_eq!(a.mime, "application/json+lottie");
    assert_eq!(a.asset_url, "PROXY:tags/custom_emoji/7.json");
    let w = sticker_asset("x/file.WEBP", 12, vec![1, 2, 3]).unwrap();
    assert_eq!(w.bytes, vec![1, 2, 3]);
    assert_eq!(w.key, "tags/custom_emoji/12.webp");
    assert_eq!(w.mime, "image/webp");
    let m = sticker_asset("x/file.webm", 12, vec![4]).unwrap();
    assert_eq!(m.mime, "video/webm");
    let o = sticker_asset("x/file.PNG", 12, vec![4]).unwrap();
    assert_eq!(o.key, "tags/custom_emoji/12.png");
    assert_eq!(o.mime, "application/octet-stream");
    assert_eq!(sticker_asset("x/file.tgs", 12, vec![1, 2, 3]).err(), Some(AssetError::Decompress));
    let b = sticker_asset("stickers/file", 12, vec![4]).unwrap();
    assert_eq!(b.key, "tags/custom_emoji/12.bin");
}

#[test]
fn hashes_are_thirty_two_hex_digits() {
    for h in [content_hash(b"", "x"), content_hash(b"abc", ""), content_hash(b"abc", "x")] {
        assert_eq!(h.len(), 32);
        assert!(h.chars().all(|c| c.is_ascii_digit() || ('a'..='f').contains(&c)));
    }
}

#[test]
fn ascii_lower_case() {
    assert_eq!(to_ascii_lower("TGS.WebP-\u{C9}Z"), "tgs.webp-\u{C9}z");
    assert_eq!(to_ascii_lower(""), "");
}
