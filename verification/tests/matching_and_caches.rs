use yesterdays::hashcache::{
    cache_entry, cache_hit, cached_count, cached_previews, collect_folder_hashes, is_hash_image, lookup_str,
    merge_hashes, missing_hashes, new_cache_entry, parse_u64_str, thumb_hashes, thumb_id, FolderHashEntry,
    ThumbEntry,
};
use yesterdays::matching::{greedy_pairs, hash_distance, match_hashes, thumbs_within_limit, FileHash, ThumbHash};
use yesterdays::thumbs::{thumbnail_names, url_extension, DownloadOutcome, DownloadTally};

fn thumb(id: u64, hash: Vec<u8>) -> ThumbHash {
    ThumbHash { image_id: id, path: format!("/t/{}.jpg", id), hash }
}

fn folder_file(name: &str, hash: Vec<u8>) -> FileHash {
    FileHash { path: format!("/f/{}", name), preview_path: format!("/p/{}.jpg", name), hash }
}

#[test]
fn hamming_distance_counts_differing_bits() {
    assert_eq!(hash_distance(&vec![0xff, 0x00], &vec![0x00, 0x00]), 8);
    assert_eq!(hash_distance(&vec![0b1010_1010], &vec![0b0101_0101]), 8);
    assert_eq!(hash_distance(&vec![1, 2, 3], &vec![1, 2, 3]), 0);
    assert_eq!(hash_distance(&vec![0x0f, 0xff], &vec![0x0e]), 1);
    assert_eq!(hash_distance(&vec![], &vec![1]), 0);
}

#[test]
fn greedy_match_takes_closest_pairs_first() {
    let thumbs = vec![thumb(10, vec![0b0000_0000]), thumb(20, vec![0b0000_0011]), thumb(30, vec![0xff])];
    let files = vec![folder_file("a", vec![0b0000_0001]), folder_file("b", vec![0b0000_0011])];
    let r = match_hashes(&thumbs, &files, 2);
    let got: Vec<(u64, String, u32)> = r.matches.iter().map(|m| (m.image_id, m.file_path.clone(), m.distance)).collect();
    assert_eq!(got, vec![(20, "/f/b".to_string(), 0), (10, "/f/a".to_string(), 1)]);
    assert_eq!(r.matches[0].thumbnail_path, "/t/20.jpg");
    assert_eq!(r.matches[0].file_preview_path, "/p/b.jpg");
    assert_eq!(r.unmatched_thumbnails, vec![30]);
    assert!(r.unmatched_files.is_empty());
    assert_eq!(r.threshold, 2);
    assert_eq!(greedy_pairs(&thumbs, &files, 2), vec![(1, 1), (0, 0)]);
}

#[test]
fn greedy_match_breaks_ties_by_thumbnail_then_file() {
    let thumbs = vec![thumb(1, vec![0]), thumb(2, vec![0])];
    let files = vec![folder_file("x", vec![0]), folder_file("y", vec![0])];
    assert_eq!(greedy_pairs(&thumbs, &files, 0), vec![(0, 0), (1, 1)]);
    let far = match_hashes(&thumbs, &vec![folder_file("z", vec![0xff])], 7);
    assert!(far.matches.is_empty());
    assert_eq!(far.unmatched_thumbnails, vec![1, 2]);
    assert_eq!(far.unmatched_files, vec!["/f/z".to_string()]);
    assert!(thumbs_within_limit(&thumbs));
}

#[test]
fn decimal_parsing_follows_str_parse() {
    assert_eq!(parse_u64_str("42"), Some(42));
    assert_eq!(parse_u64_str("+42"), Some(42));
    assert_eq!(parse_u64_str("007"), Some(7));
    assert_eq!(parse_u64_str("-1"), None);
    assert_eq!(parse_u64_str("+"), None);
    assert_eq!(parse_u64_str(""), None);
    assert_eq!(parse_u64_str("4a"), None);
    assert_eq!(parse_u64_str("18446744073709551615"), Some(u64::MAX));
    assert_eq!(parse_u64_str("18446744073709551616"), None);
    for s in ["0", "12", "+9", "x", "99999999999999999999"] {
        assert_eq!(parse_u64_str(s), s.parse::<u64>().ok());
    }
}

#[test]
fn thumbnail_ids_and_missing_hashes() {
    assert_eq!(thumb_id("/cache/thumbnails/123.jpg"), Some(123));
    assert_eq!(thumb_id("/cache/thumbnails/123.jpg.tmp"), None);
    assert_eq!(thumb_id("/cache/thumbnails/notes.txt"), None);
    let hashes = vec![("1".to_string(), "AAAA".to_string()), ("3".to_string(), "BBBB".to_string())];
    assert_eq!(missing_hashes(&vec![1, 2, 3, 4], &hashes), vec![1, 3]);
    assert_eq!(lookup_str(&hashes, "3"), Some("BBBB".to_string()));
    assert_eq!(lookup_str(&hashes, "9"), None);
}

#[test]
fn merging_new_hashes_overwrites() {
    let mut hashes = vec![("1".to_string(), "old".to_string()), ("2".to_string(), "two".to_string())];
    merge_hashes(&mut hashes, &vec![("1".to_string(), "new".to_string()), ("5".to_string(), "five".to_string())]);
    assert_eq!(lookup_str(&hashes, "1"), Some("new".to_string()));
    assert_eq!(lookup_str(&hashes, "2"), Some("two".to_string()));
    assert_eq!(lookup_str(&hashes, "5"), Some("five".to_string()));
    assert_eq!(hashes.len(), 3);
}

#[test]
fn stored_hashes_decode_for_matching() {
    let entries = vec![
        ThumbEntry { image_id: 1, path: "/t/1.jpg".to_string() },
        ThumbEntry { image_id: 2, path: "/t/2.jpg".to_string() },
        ThumbEntry { image_id: 3, path: "/t/3.jpg".to_string() },
    ];
    let hashes = vec![
        ("1".to_string(), "/wAP8AECAwQ".to_string()),
        ("3".to_string(), "!!".to_string()),
    ];
    let t = thumb_hashes(&entries, &hashes);
    assert_eq!(t.len(), 1);
    assert_eq!(t[0].image_id, 1);
    assert_eq!(t[0].hash, vec![0xff, 0x00, 0x0f, 0xf0, 1, 2, 3, 4]);
}

fn entry(b64: &str, preview: &str) -> FolderHashEntry {
    FolderHashEntry { mtime_secs: 100, size: 5, hash_b64: b64.to_string(), preview_filename: preview.to_string() }
}

#[test]
fn folder_cache_must_cover_every_file() {
    let cache = vec![("/f/a.tif".to_string(), entry("/wAP8AECAwU", "a.jpg"))];
    let files = vec!["/f/a.tif".to_string()];
    let previews = cached_previews(&files, &cache, "/prev");
    assert_eq!(previews, vec![Some("/prev/a.jpg".to_string())]);
    let ok = collect_folder_hashes(&files, &cache, "/prev", &vec![true]).unwrap();
    assert_eq!(ok[0].path, "/f/a.tif");
    assert_eq!(ok[0].preview_path, "/prev/a.jpg");
    assert_eq!(ok[0].hash, vec![0xff, 0x00, 0x0f, 0xf0, 1, 2, 3, 5]);
    assert_eq!(
        collect_folder_hashes(&files, &cache, "/prev", &vec![false]).err(),
        Some("1 folder file has not been hashed yet. Re-run \"Hash folder\".".to_string())
    );
    let two = vec!["/f/b.tif".to_string(), "/f/c.tif".to_string()];
    assert_eq!(
        collect_folder_hashes(&two, &cache, "/prev", &vec![true, true]).err(),
        Some("2 folder files have not been hashed yet. Re-run \"Hash folder\".".to_string())
    );
}

#[test]
fn cache_hits_need_matching_file_and_preview() {
    let cache = vec![("/f/a.tif".to_string(), entry("/wAP8AECAwU", "a.jpg"))];
    let e = cache_entry(&cache, "/f/a.tif");
    assert!(cache_hit(e, 5, 100, true));
    assert!(!cache_hit(e, 6, 100, true));
    assert!(!cache_hit(e, 5, 101, true));
    assert!(!cache_hit(e, 5, 100, false));
    assert!(!cache_hit(cache_entry(&cache, "/f/other.tif"), 5, 100, true));
    let bad = vec![("/f/a.tif".to_string(), entry("***", "a.jpg"))];
    assert!(!cache_hit(cache_entry(&bad, "/f/a.tif"), 5, 100, true));
    let fresh = new_cache_entry(1, 2, "h".to_string(), "/prev/key.jpg").unwrap();
    assert_eq!(fresh.preview_filename, "key.jpg");
    assert!(new_cache_entry(1, 2, "h".to_string(), "/").is_none());
    assert_eq!(cached_count(10, 3, 2), 5);
    assert_eq!(cached_count(3, 5, 0), 0);
    assert_eq!(cached_count(5, 3, 4), 0);
    assert!(is_hash_image("/f/a.GIF"));
    assert!(!is_hash_image("/f/a.txt"));
}

#[test]
fn thumbnail_file_names() {
    assert_eq!(url_extension("https://cdn.example.org/img/thumb.JPEG?x=1"), Some("jpeg".to_string()));
    assert_eq!(url_extension("https://cdn.example.org/img/thumb"), None);
    assert_eq!(url_extension("https://cdn.example.org/img/.png"), None);
    assert_eq!(url_extension("https://cdn.example.org/img/a.toolong"), None);
    assert_eq!(url_extension("not a url"), None);
    assert_eq!(thumbnail_names(17, "https://x.org/a/b.webp"), ("17.webp".to_string(), "17.webp.tmp".to_string()));
    assert_eq!(thumbnail_names(18, "https://x.org/a/b"), ("18.jpg".to_string(), "18.jpg.tmp".to_string()));
}

#[test]
fn download_tally_counts_each_outcome() {
    let mut t = DownloadTally::new();
    t.record(DownloadOutcome::Stored);
    t.record(DownloadOutcome::AlreadyThere);
    t.record(DownloadOutcome::Failed);
    t.record(DownloadOutcome::Stored);
    assert_eq!((t.done, t.ok, t.skipped, t.failed), (4, 2, 1, 1));
}
