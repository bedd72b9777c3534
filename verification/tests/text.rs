use fluxsyncd::driver::commands::is_pair_pin;
use fluxsyncd::driver::content::{
    clipboard_dedup_hash, copied_image_preview, decode_png_to_rgba, encode_png, image_cache,
    image_rgba_hash, preview_label, verify_content_hash,
};
use fluxsyncd::driver::resync::{decode_hex32, IdError};
use fluxsyncd::handshake::{hex_encode, peer_id_for};
use fluxsyncd::text::{
    canon_text, contains_text, decimal_text, join_texts, split_first, split_text, strip_prefix, trim,
};
use fluxsyncd::wire::Kind;

#[test]
fn fs026_clipboard_dedup_hash_is_trim_symmetric() {
    assert_eq!(
        clipboard_dedup_hash("hello\n"),
        clipboard_dedup_hash("hello"),
        "trailing newline must not change the dedup hash",
    );
    assert_eq!(
        clipboard_dedup_hash("  hello  "),
        clipboard_dedup_hash("hello"),
        "surrounding spaces must not change the dedup hash",
    );
    assert_ne!(
        clipboard_dedup_hash("hello"),
        clipboard_dedup_hash("world"),
        "distinct payloads must still hash differently",
    );
}

#[test]
fn c1_clipboard_dedup_hash_canonicalizes_crlf() {
    assert_eq!(
        clipboard_dedup_hash("line1\r\nline2"),
        clipboard_dedup_hash("line1\nline2"),
        "CRLF and LF of the same text must hash equal",
    );
    assert_eq!(
        clipboard_dedup_hash("a\rb"),
        clipboard_dedup_hash("a\nb"),
        "lone CR must canonicalize to LF",
    );
}

#[test]
fn clear_history_purges_cached_images_for_cleared_hashes() {
    let keep = "bb".repeat(32);
    let drop = "aa".repeat(32);
    let mut cache = image_cache();
    cache.cache_image(drop.clone(), vec![1, 2, 3]);
    cache.cache_image(keep.clone(), vec![4, 5, 6]);
    cache.purge_cached_images(std::slice::from_ref(&drop));
    assert!(cache.lookup_cached_image(&drop).is_none(), "cleared hash must be purged");
    assert!(cache.lookup_cached_image(&keep).is_some(), "an untouched hash must survive the purge");
}

#[test]
fn image_cache_keeps_the_last_four() {
    let mut cache = image_cache();
    for i in 0..6u8 {
        cache.cache_image(format!("{i}"), vec![i]);
    }
    cache.cache_image("5".to_string(), vec![99]);
    assert!(cache.lookup_cached_image("1").is_none());
    assert_eq!(cache.lookup_cached_image("2"), Some(vec![2]));
    assert_eq!(cache.lookup_cached_image("5"), Some(vec![5]));
    cache.clear();
    assert!(cache.lookup_cached_image("5").is_none());
}

#[test]
fn canonical_text() {
    assert_eq!(canon_text("  a\r\nb\rc\n "), "a\nb\nc");
    assert_eq!(canon_text("\u{3000}x\u{a0}"), "x");
    assert_eq!(canon_text("\r\n"), "");
    assert_eq!(canon_text("a\n\r\nb"), "a\n\nb");
    assert_eq!(trim(" \t a b \u{85}"), "a b");
    assert_eq!(trim(""), "");
}

#[test]
fn text_pieces() {
    assert_eq!(split_text("a,b,,c", ','), vec!["a", "b", "", "c"]);
    assert_eq!(split_text("", ','), vec![""]);
    assert_eq!(split_first("k=v=w", '='), ("k".to_string(), "v=w".to_string()));
    assert_eq!(split_first("k", '='), ("k".to_string(), String::new()));
    let parts = vec!["x".to_string(), "y".to_string()];
    assert_eq!(join_texts(&parts, '.'), "x.y");
    assert_eq!(strip_prefix("abc", "ab"), Some("c".to_string()));
    assert_eq!(strip_prefix("abc", "b"), None);
    assert_eq!(decimal_text(0), "0");
    assert_eq!(decimal_text(u64::MAX), "18446744073709551615");
    assert!(contains_text("hello", "ell") && contains_text("hello", "") && contains_text("hello", "hello"));
    assert!(!contains_text("hello", "elo") && !contains_text("", "a"));
    assert!(is_pair_pin("012345") && !is_pair_pin("01234") && !is_pair_pin("01234x"));
}

#[test]
fn digests_are_those_of_blake3() {
    let empty = hex_encode(&clipboard_dedup_hash("  "));
    assert_eq!(empty, "af1349b9f5f9a1a6a0404dea36dcc9499bcb25c9adc112b7cc9a93cae41f3262");
    assert_ne!(peer_id_for(&[7u8; 32]), [7u8; 32]);
    assert_eq!(hex_encode(&[0x00, 0xAF, 0x10]), "00af10");
}

#[test]
fn ids_in_hexadecimal() {
    let id = [0x5Au8; 32];
    assert_eq!(decode_hex32(&hex_encode(&id)), Ok(id));
    assert_eq!(decode_hex32(&"5A".repeat(32)), Ok(id));
    assert_eq!(decode_hex32("xy"), Err(IdError::BadHex));
    assert_eq!(decode_hex32("abc"), Err(IdError::BadHex));
    assert_eq!(decode_hex32("ab"), Err(IdError::WrongLength));
}

#[test]
fn images_keep_their_hash_through_png() {
    let rgba = vec![1u8, 2, 3, 255, 4, 5, 6, 128];
    let png = encode_png(2, 1, rgba.clone()).expect("encode");
    assert_ne!(png, rgba);
    let (w, h, back) = decode_png_to_rgba(&png).expect("decode");
    assert_eq!((w, h, back.clone()), (2, 1, rgba.clone()));
    assert_eq!(image_rgba_hash(w, h, &back), image_rgba_hash(2, 1, &rgba));
    assert_ne!(image_rgba_hash(1, 2, &rgba), image_rgba_hash(2, 1, &rgba));
    assert!(encode_png(2, 2, rgba).is_none());
    assert!(decode_png_to_rgba(b"no png").is_none());
}

#[test]
fn a_large_screenshot_is_taken_for_what_it_is() {
    let (w, h) = (6016u32, 3384u32);
    let mut rgba = vec![200u8; (w * h * 4) as usize];
    rgba[12_345_678] = 7;
    let hash = image_rgba_hash(w, h, &rgba);
    let png = encode_png(w, h, rgba).expect("encode");
    assert!(verify_content_hash(Kind::Image, &png, hash));
}

#[test]
fn content_hash_is_checked() {
    let hash = clipboard_dedup_hash("hi");
    assert!(verify_content_hash(Kind::Text, b" hi\r\n", hash));
    assert!(!verify_content_hash(Kind::Text, b"ho", hash));
    assert!(!verify_content_hash(Kind::Image, b"hi", hash));
    let png = encode_png(1, 1, vec![9, 9, 9, 9]).unwrap();
    assert!(verify_content_hash(Kind::Image, &png, image_rgba_hash(1, 1, &[9, 9, 9, 9])));
}

#[test]
fn labels() {
    assert_eq!(preview_label(Kind::Image, &[0u8; 1025]), "Image, 2 KB");
    assert_eq!(preview_label(Kind::Image, &[]), "Image, 0 KB");
    assert_eq!(preview_label(Kind::Text, b"caf\xc3\xa9"), "caf\u{e9}");
    assert_eq!(preview_label(Kind::Text, b"\xff"), "\u{fffd}");
    assert_eq!(copied_image_preview(3, 4, 1024), "Image 3\u{d7}4, 1 KB");
}
