use yesterdays::json::JsonValue;
use yesterdays::prepare::{
    build_sidecar_json, check_destination_empty, check_save_request, is_prepare_file, missing_folder_message,
    opt, plan_save_item, prepare_image, validate_sidecar, Destination, SaveItem, SaveSidecar,
};
use yesterdays::preflight::{file_to_read, preflight_folder, scan_folder, FolderEntry};
use yesterdays::sidecar::parse_sidecar;

fn to_serde(v: &JsonValue) -> serde_json::Value {
    match v {
        JsonValue::Null => serde_json::Value::Null,
        JsonValue::Bool(b) => serde_json::Value::Bool(*b),
        JsonValue::Number(Some(n)) => serde_json::Value::from(*n),
        JsonValue::Number(None) => serde_json::Value::Null,
        JsonValue::Str(s) => serde_json::Value::String(s.clone()),
        JsonValue::Array(a) => serde_json::Value::Array(a.iter().map(to_serde).collect()),
        JsonValue::Object(m) => {
            let mut map = serde_json::Map::new();
            for (k, x) in m.iter() {
                map.insert(k.clone(), to_serde(x));
            }
            serde_json::Value::Object(map)
        }
    }
}

fn sidecar(title: &str, rotation: i64, mirror: &str) -> SaveSidecar {
    SaveSidecar {
        title: title.to_string(),
        original_date: "circa 1920".to_string(),
        edtf_date: "1920~".to_string(),
        source_url: "  ".to_string(),
        description: "Main street".to_string(),
        creator: "".to_string(),
        reference_id: "A-12".to_string(),
        license_name: "CC BY 4.0".to_string(),
        rotation,
        mirror: mirror.to_string(),
    }
}

#[test]
fn validation_messages() {
    assert_eq!(validate_sidecar(&sidecar("Harbour", 90, "h")), Ok(()));
    assert_eq!(validate_sidecar(&sidecar("  ", 0, "none")), Err("title is required".to_string()));
    let mut sc = sidecar("Harbour", 0, "none");
    sc.original_date = "".into();
    assert_eq!(validate_sidecar(&sc), Err("original_date is required".to_string()));
    let mut sc = sidecar("Harbour", 0, "none");
    sc.edtf_date = "\t".into();
    assert_eq!(validate_sidecar(&sc), Err("edtf_date is required".to_string()));
    assert_eq!(
        validate_sidecar(&sidecar("Harbour", -90, "none")),
        Err("rotation must be 0, 90, 180, or 270 (got -90)".to_string())
    );
    assert_eq!(
        validate_sidecar(&sidecar("Harbour", 180, "x")),
        Err("mirror must be \"none\", \"h\", or \"v\" (got \"x\")".to_string())
    );
}

#[test]
fn optional_fields_become_null_when_blank() {
    assert!(matches!(opt(" "), JsonValue::Null));
    assert!(matches!(opt(""), JsonValue::Null));
    match opt(" a ") {
        JsonValue::Str(s) => assert_eq!(s, " a "),
        _ => panic!("expected a string"),
    }
}

#[test]
fn saved_sidecar_reads_back() {
    let sc = sidecar("Harbour", 270, "v");
    let v = build_sidecar_json("000001.tif", &sc);
    let text = serde_json::to_string_pretty(&to_serde(&v)).unwrap();
    let parsed = parse_sidecar(&text).unwrap();
    assert_eq!(parsed.filename, "000001.tif");
    assert_eq!(parsed.title, "Harbour");
    assert_eq!(parsed.original_date, "circa 1920");
    assert_eq!(parsed.edtf_date, "1920~");
    assert_eq!(parsed.source_url, None);
    assert_eq!(parsed.description, Some("Main street".to_string()));
    assert_eq!(parsed.creator, None);
    assert_eq!(parsed.reference_id, Some("A-12".to_string()));
    assert_eq!(parsed.license_name, Some("CC BY 4.0".to_string()));
    assert_eq!(parsed.rotation, 270);
    assert_eq!(parsed.mirror, "v");
    assert!(parsed.subjects.is_empty());
}

#[test]
fn sidecar_parse_errors() {
    assert!(parse_sidecar("not json").unwrap_err().starts_with("invalid JSON: "));
    assert_eq!(parse_sidecar("[1]").unwrap_err(), "sidecar must be a JSON object");
    assert_eq!(parse_sidecar("{\"zzz\": 1, \"aaa\": 2}").unwrap_err(), "unknown field `aaa`");
    assert_eq!(parse_sidecar("{}").unwrap_err(), "missing required field `filename`");
    let base = "\"filename\": \"000001.jpg\", \"title\": \"T\", \"original_date\": \"d\", \"edtf_date\": \"e\", \"source_url\": null, \"description\": null, \"creator\": null, \"reference_id\": null, \"license_name\": null, \"mirror\": \"none\"";
    let ok = format!("{{{}, \"rotation\": 0}}", base);
    let s = parse_sidecar(&ok).unwrap();
    assert_eq!(s.rotation, 0);
    assert!(s.subjects.is_empty());
    let bad_rot = format!("{{{}, \"rotation\": 45}}", base);
    assert_eq!(
        parse_sidecar(&bad_rot).unwrap_err(),
        "`rotation` must be 0, 90, 180, or 270 (got 45)"
    );
    let not_int = format!("{{{}, \"rotation\": 1.5}}", base);
    assert_eq!(parse_sidecar(&not_int).unwrap_err(), "`rotation` must be an integer");
    let subjects = format!("{{{}, \"rotation\": 90, \"subjects\": [\"harbour\", \"boats\"]}}", base);
    assert_eq!(parse_sidecar(&subjects).unwrap().subjects, vec!["harbour".to_string(), "boats".to_string()]);
    let bad_subjects = format!("{{{}, \"rotation\": 90, \"subjects\": [1]}}", base);
    assert_eq!(parse_sidecar(&bad_subjects).unwrap_err(), "`subjects` must be an array of strings");
    let empty_title = ok.replace("\"title\": \"T\"", "\"title\": \"\"");
    assert_eq!(parse_sidecar(&empty_title).unwrap_err(), "`title` must be a non-empty string");
}

#[test]
fn prepare_files_and_rows() {
    assert!(is_prepare_file("/in/IMG_1.JPG"));
    assert!(is_prepare_file("/in/scan.tiff"));
    assert!(!is_prepare_file("/in/anim.gif"));
    assert!(!is_prepare_file("/in/README"));
    let row = prepare_image("/in/IMG_1.JPG", 2048, Ok("/cache/abc.jpg".to_string()));
    assert_eq!(row.filename, "IMG_1.JPG");
    assert_eq!(row.ext, "jpg");
    assert_eq!(row.preview_path, Some("/cache/abc.jpg".to_string()));
    assert_eq!(row.error, None);
    assert_eq!(row.size, 2048);
    let broken = prepare_image("/in/x.tif", 0, Err("decode failed".to_string()));
    assert_eq!(broken.preview_path, None);
    assert_eq!(broken.error, Some("decode failed".to_string()));
    assert_eq!(missing_folder_message("/nope"), "Folder does not exist or is not a directory: /nope");
}

#[test]
fn save_request_checks() {
    assert_eq!(check_save_request(0, false, false).err(), Some("No enabled images to save.".to_string()));
    assert_eq!(
        check_save_request(2, true, false).err(),
        Some("Destination exists but is not a folder.".to_string())
    );
    assert!(matches!(check_save_request(2, true, true), Ok(Destination::MustBeEmpty)));
    assert!(matches!(check_save_request(2, false, false), Ok(Destination::Create)));
    assert_eq!(
        check_destination_empty(true),
        Err("Destination folder is not empty. Choose an empty or new folder.".to_string())
    );
    assert_eq!(check_destination_empty(false), Ok(()));
}

#[test]
fn save_plans_number_images_contiguously() {
    let item = SaveItem { source_path: "/in/IMG_7.TIF".to_string(), sidecar: sidecar("Harbour", 0, "none") };
    let plan = plan_save_item("/out", 6, &item).unwrap();
    assert_eq!(plan.image_name, "000007.tif");
    assert_eq!(plan.image_path, "/out/000007.tif");
    assert_eq!(plan.tmp_image_path, "/out/000007.tif.tmp");
    assert_eq!(plan.sidecar_name, "000007.json");
    assert_eq!(plan.sidecar_path, "/out/000007.json");
    assert_eq!(plan.tmp_sidecar_path, "/out/000007.json.tmp");
    let text = serde_json::to_string(&to_serde(&plan.sidecar)).unwrap();
    assert_eq!(parse_sidecar(&text).unwrap().filename, "000007.tif");
}

#[test]
fn save_plan_errors() {
    let no_ext = SaveItem { source_path: "/in/README".to_string(), sidecar: sidecar("T", 0, "none") };
    assert_eq!(plan_save_item("/out", 0, &no_ext).err(), Some("/in/README: file has no extension".to_string()));
    let gif = SaveItem { source_path: "/in/a.GIF".to_string(), sidecar: sidecar("T", 0, "none") };
    assert_eq!(plan_save_item("/out", 0, &gif).err(), Some("/in/a.GIF: unsupported extension `.gif`".to_string()));
    let bad = SaveItem { source_path: "/in/a.png".to_string(), sidecar: sidecar("", 0, "none") };
    assert_eq!(plan_save_item("/out", 2, &bad).err(), Some("000003 (a.png): title is required".to_string()));
}

#[test]
fn saved_folder_passes_the_preflight() {
    let items = vec![
        SaveItem { source_path: "/in/b.PNG".to_string(), sidecar: sidecar("Second", 90, "h") },
        SaveItem { source_path: "/in/a.jpeg".to_string(), sidecar: sidecar("First", 0, "none") },
        SaveItem { source_path: "/in/c.tif".to_string(), sidecar: sidecar("Third", 0, "none") },
    ];
    let mut entries = Vec::new();
    let mut texts = std::collections::HashMap::new();
    for (i, item) in items.iter().enumerate() {
        let plan = plan_save_item("/out", i, item).unwrap();
        texts.insert(plan.sidecar_path.clone(), serde_json::to_string_pretty(&to_serde(&plan.sidecar)).unwrap());
        entries.push(FolderEntry::File { name: plan.sidecar_name.clone(), path: plan.sidecar_path.clone() });
        entries.insert(0, FolderEntry::File { name: plan.image_name.clone(), path: plan.image_path.clone() });
    }
    let scan = scan_folder(&entries);
    assert!(scan.errors.is_empty());
    let reads = scan.stems.iter().map(|f| file_to_read(f).map(|p| Ok(texts[&p].clone()))).collect();
    let fetched = Some(Ok(vec!["cc by 4.0".to_string()]));
    let res = preflight_folder("/out".to_string(), scan, fetched, reads);
    assert!(res.errors.is_empty(), "{:?}", res.errors);
    assert!(res.completed.is_empty());
    let stems: Vec<&str> = res.pending.iter().map(|p| p.stem.as_str()).collect();
    assert_eq!(stems, vec!["000001", "000002", "000003"]);
    let titles: Vec<&str> = res.pending.iter().map(|p| p.sidecar.title.as_str()).collect();
    assert_eq!(titles, vec!["Second", "First", "Third"]);
    assert_eq!(res.pending[0].image_path, "/out/000001.png");
}
