use std::io::Cursor;

use yesterdays::active::{state_response, ActiveImports};
use yesterdays::digest::preview_path;
use yesterdays::hashcache::{
    cache_entry, lookup_str, merge_folder_hashes, merge_hashes, record_hash, FolderHashEntry,
};
use yesterdays::imaging::{
    fresh_folder_entry, hash_and_preview, hash_file, preview_save_message, render_preview, thumbnail_hash,
};

fn png_bytes(w: u32, h: u32) -> Vec<u8> {
    let img = image::RgbImage::from_fn(w, h, |x, y| image::Rgb([(x * 7) as u8, (y * 13) as u8, ((x + y) * 3) as u8]));
    let mut out = Cursor::new(Vec::new());
    img.write_to(&mut out, image::ImageFormat::Png).unwrap();
    out.into_inner()
}

fn entry(mtime: u64, hash: &str, preview: &str) -> FolderHashEntry {
    FolderHashEntry { mtime_secs: mtime, size: 10, hash_b64: hash.to_string(), preview_filename: preview.to_string() }
}

#[test]
fn later_fresh_hash_wins() {
    let mut hashes = vec![("1".to_string(), "old".to_string())];
    merge_hashes(
        &mut hashes,
        &vec![("5".to_string(), "png".to_string()), ("5".to_string(), "jpg".to_string()), ("1".to_string(), "new".to_string())],
    );
    assert_eq!(lookup_str(&hashes, "5"), Some("jpg".to_string()));
    assert_eq!(lookup_str(&hashes, "1"), Some("new".to_string()));
    assert_eq!(hashes.len(), 2);
}

#[test]
fn recorded_hashes_are_keyed_by_decimal_id() {
    let mut fresh = Vec::new();
    record_hash(&mut fresh, 5, "a".to_string());
    record_hash(&mut fresh, 12, "b".to_string());
    record_hash(&mut fresh, 5, "c".to_string());
    assert_eq!(fresh, vec![("5".to_string(), "c".to_string()), ("12".to_string(), "b".to_string())]);
}

#[test]
fn folder_hash_merge_overwrites_and_appends() {
    let mut cache = vec![("/f/a.jpg".to_string(), entry(1, "A", "a.jpg")), ("/f/b.jpg".to_string(), entry(1, "B", "b.jpg"))];
    merge_folder_hashes(
        &mut cache,
        vec![
            ("/f/c.jpg".to_string(), entry(2, "C", "c.jpg")),
            ("/f/a.jpg".to_string(), entry(3, "A2", "a2.jpg")),
            ("/f/c.jpg".to_string(), entry(4, "C2", "c2.jpg")),
        ],
    );
    assert_eq!(cache.len(), 3);
    assert_eq!(cache_entry(&cache, "/f/a.jpg").unwrap().hash_b64, "A2");
    assert_eq!(cache_entry(&cache, "/f/b.jpg").unwrap().hash_b64, "B");
    let c = cache_entry(&cache, "/f/c.jpg").unwrap();
    assert_eq!((c.mtime_secs, c.hash_b64.as_str()), (4, "C2"));
}

#[test]
fn hashing_a_file_gives_an_eight_byte_hash() {
    let bytes = png_bytes(40, 30);
    let h = hash_file("/f/a.png", Ok(bytes.clone())).unwrap();
    assert_eq!(h.len(), 8);
    assert_eq!(hash_file("/f/a.png", Ok(bytes)).unwrap(), h);
}

#[test]
fn hashing_reports_read_and_decode_errors_with_the_path() {
    assert_eq!(hash_file("/f/a.png", Err("denied".to_string())), Err("/f/a.png: open: denied".to_string()));
    let e = hash_file("/f/bad.png", Ok(vec![1, 2, 3, 4])).unwrap_err();
    assert!(e.starts_with("/f/bad.png: "), "{}", e);
    assert!(!e.starts_with("/f/bad.png: open: "), "{}", e);
}

#[test]
fn thumbnail_hash_text_decodes_to_the_hash() {
    let bytes = png_bytes(16, 16);
    let h = hash_file("/t/1.png", Ok(bytes.clone())).unwrap();
    let text = thumbnail_hash("/t/1.png", Ok(bytes)).unwrap();
    assert_ne!(text.as_bytes(), &h[..]);
    let back = image_hasher::ImageHash::<Box<[u8]>>::from_base64(&text).unwrap();
    assert_eq!(back.as_bytes(), &h[..]);
    assert_eq!(thumbnail_hash("/t/2.png", Err("gone".to_string())), Err("/t/2.png: open: gone".to_string()));
}

#[test]
fn preview_is_a_small_jpeg() {
    let jpeg = render_preview("/f/big.png", Ok(png_bytes(1200, 600))).unwrap();
    assert_eq!(&jpeg[..2], &[0xFF, 0xD8]);
    let img = image::load_from_memory(&jpeg).unwrap();
    assert_eq!((img.width(), img.height()), (512, 256));
    assert_eq!(render_preview("/f/x.png", Err("no".to_string())), Err("/f/x.png: open: no".to_string()));
    assert!(render_preview("/f/x.png", Ok(vec![0, 1])).unwrap_err().starts_with("/f/x.png: "));
    assert_eq!(preview_save_message("disk full"), "preview save: disk full");
}

#[test]
fn hash_and_preview_renders_only_missing_previews() {
    let bytes = png_bytes(20, 20);
    let fresh = hash_and_preview("/f/a.png", "/cache/p", Ok(bytes.clone()), false).unwrap();
    assert_eq!(fresh.preview_path, preview_path("/cache/p", "/f/a.png"));
    assert!(fresh.preview_jpeg.as_ref().unwrap().starts_with(&[0xFF, 0xD8]));
    assert_eq!(fresh.hash, hash_file("/f/a.png", Ok(bytes.clone())).unwrap());
    let kept = hash_and_preview("/f/a.png", "/cache/p", Ok(bytes), true).unwrap();
    assert!(kept.preview_jpeg.is_none());
    assert_eq!(kept.hash, fresh.hash);
    assert_eq!(
        hash_and_preview("/f/a.png", "/cache/p", Err("busy".to_string()), false).unwrap_err(),
        "/f/a.png: open: busy"
    );
}

#[test]
fn fresh_folder_entry_stores_the_hash_text() {
    let h = hash_file("/f/a.png", Ok(png_bytes(9, 9))).unwrap();
    let e = fresh_folder_entry(7, 99, &h, "/cache/p/abc.jpg").unwrap();
    assert_eq!((e.mtime_secs, e.size, e.preview_filename.as_str()), (7, 99, "abc.jpg"));
    let back = image_hasher::ImageHash::<Box<[u8]>>::from_base64(&e.hash_b64).unwrap();
    assert_eq!(back.as_bytes(), &h[..]);
}

#[test]
fn state_reports_the_paused_reading_only_for_the_running_batch() {
    let a = ActiveImports::new(3, "/in".to_string());
    let r = state_response(Vec::new(), Some(&a), false, 3);
    assert!(r.active && !r.paused);
    let r = state_response(Vec::new(), Some(&a), true, 3);
    assert!(r.active && r.paused);
    let r = state_response(Vec::new(), None, true, 3);
    assert!(!r.active && !r.paused);
}

#[test]
fn the_extension_names_the_format_of_unsigned_bytes() {
    let by_ext = hash_file("/f/bad.png", Ok(vec![1, 2, 3, 4, 5, 6, 7, 8])).unwrap_err();
    let no_ext = hash_file("/f/bad", Ok(vec![1, 2, 3, 4, 5, 6, 7, 8])).unwrap_err();
    assert!(by_ext.to_lowercase().contains("png"), "{}", by_ext);
    assert!(!no_ext.to_lowercase().contains("png"), "{}", no_ext);
    let jpeg = render_preview("/f/photo.tif", Ok(png_bytes(30, 10))).unwrap();
    assert_eq!(&jpeg[..2], &[0xFF, 0xD8]);
}
