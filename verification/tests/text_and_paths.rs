use yesterdays::natural::{natural_cmp, natural_order, natural_path_order, natural_sort_order, Order3};
use yesterdays::paths::{extension_of, file_name_of, join_path, lower_extension_of, path_stem_of, stem_of};
use yesterdays::text::{is_six_digits, padded_decimal, signed_decimal_string, trim_slashes, trimmed};

use std::cmp::Ordering;

#[test]
fn six_digit_stems() {
    assert!(is_six_digits("000001"));
    assert!(is_six_digits("123456"));
    assert!(!is_six_digits("12345"));
    assert!(!is_six_digits("1234567"));
    assert!(!is_six_digits("12a456"));
    assert!(!is_six_digits(""));
}

#[test]
fn padded_and_signed_decimals() {
    assert_eq!(padded_decimal(1, 6), "000001");
    assert_eq!(padded_decimal(123456, 6), "123456");
    assert_eq!(padded_decimal(1234567, 6), "1234567");
    assert_eq!(signed_decimal_string(-45), "-45");
    assert_eq!(signed_decimal_string(i64::MIN), "-9223372036854775808");
    assert_eq!(signed_decimal_string(270), "270");
}

#[test]
fn trimming() {
    assert_eq!(trimmed("  body \n"), "body");
    assert_eq!(trimmed("\u{3000}x\u{a0}"), "x");
    assert_eq!(trimmed("   "), "");
    assert_eq!(trim_slashes("https://example.org///"), "https://example.org");
    assert_eq!(trim_slashes("https://example.org"), "https://example.org");
}

#[test]
fn natural_order_reads_numbers_by_value() {
    assert_eq!(natural_cmp("IMG_2", "IMG_10"), Ordering::Less);
    assert_eq!(natural_cmp("IMG_10", "IMG_2"), Ordering::Greater);
    assert_eq!(natural_cmp("img_2", "IMG_2"), Ordering::Equal);
    assert_eq!(natural_cmp("IMG_002", "IMG_2"), Ordering::Equal);
    assert_eq!(natural_cmp("a", "ab"), Ordering::Less);
    assert_eq!(natural_cmp("", ""), Ordering::Equal);
    assert_eq!(natural_cmp("x9", "x10y"), Ordering::Less);
    assert_eq!(natural_cmp("b", "A"), Ordering::Greater);
    assert!(matches!(natural_order("scan 9", "scan 10"), Order3::Less));
}

#[test]
fn natural_order_is_antisymmetric_on_samples() {
    let names = ["IMG_2", "IMG_10", "img_010", "a", "B", "10", "9", "x_1_2", "x_1_10"];
    for a in names.iter() {
        for b in names.iter() {
            assert_eq!(natural_cmp(a, b), natural_cmp(b, a).reverse());
        }
        assert_eq!(natural_cmp(a, a), Ordering::Equal);
    }
}

#[test]
fn natural_sort_is_stable() {
    let keys: Vec<String> = vec!["IMG_10".into(), "img_2".into(), "IMG_2".into(), "IMG_1".into()];
    assert_eq!(natural_sort_order(&keys), vec![3, 1, 2, 0]);
}

#[test]
fn paths_sort_by_file_name() {
    let paths: Vec<String> = vec![
        "/scans/b/IMG_10.tif".into(),
        "/scans/a/IMG_9.jpg".into(),
        "/scans/IMG_1.png".into(),
    ];
    assert_eq!(natural_path_order(&paths), vec![2, 1, 0]);
}

#[test]
fn file_names_and_extensions() {
    assert_eq!(file_name_of("/a/b/photo.TIF"), Some("photo.TIF".to_string()));
    assert_eq!(file_name_of("/a/b/"), Some("b".to_string()));
    assert_eq!(file_name_of("a/."), Some("a".to_string()));
    assert_eq!(file_name_of("a/.."), None);
    assert_eq!(file_name_of("/"), None);
    assert_eq!(file_name_of("."), None);
    assert_eq!(extension_of("photo.TIF"), Some("TIF".to_string()));
    assert_eq!(extension_of("archive.tar.gz"), Some("gz".to_string()));
    assert_eq!(extension_of(".hidden"), None);
    assert_eq!(extension_of("noext"), None);
    assert_eq!(extension_of("trailing."), Some("".to_string()));
    assert_eq!(stem_of("archive.tar.gz"), "archive.tar");
    assert_eq!(stem_of(".hidden"), ".hidden");
    assert_eq!(lower_extension_of("/x/IMG.JPEG"), Some("jpeg".to_string()));
    assert_eq!(path_stem_of("/cache/thumbnails/42.jpg"), Some("42".to_string()));
}

#[test]
fn joining_paths() {
    assert_eq!(join_path("/dest", "000001.jpg"), "/dest/000001.jpg");
    assert_eq!(join_path("/dest/", "000001.jpg"), "/dest/000001.jpg");
    assert_eq!(join_path("/dest", "/abs"), "/abs");
    assert_eq!(join_path("", "x"), "x");
}

#[test]
fn six_digit_stems_are_the_zero_padded_numbers() {
    assert!(is_six_digits(&padded_decimal(0, 6)));
    assert!(is_six_digits(&padded_decimal(42, 6)));
    assert!(is_six_digits(&padded_decimal(999_999, 6)));
    assert_eq!(padded_decimal(42, 6), "000042");
    assert_eq!(padded_decimal(1_000_000, 6), "1000000");
    assert!(!is_six_digits(&padded_decimal(1_000_000, 6)));
    assert!(!is_six_digits("00042"));
    assert!(!is_six_digits("00004a"));
}
