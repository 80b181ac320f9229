use yesterdays::active::{check_can_clear, check_can_resume, check_can_start, state_response, ActiveImports, ImportsAppState};
use yesterdays::clock::{chrono_now_iso8601, civil_from_days, format_iso8601, is_leap_year};
use yesterdays::dispatch::{ImportAction, ImportEvent, ImportRun};
use yesterdays::imports::{
    batch_from_inputs, pending_of, reset_failed, update_import_status, ImportInput, ImportItem, ImportStatus,
    ImportsState,
};
use yesterdays::preflight::{file_to_read, preflight_folder, scan_folder, FolderEntry};

fn file(name: &str) -> FolderEntry {
    FolderEntry::File { name: name.to_string(), path: format!("/in/{}", name) }
}

const SIDECAR_1: &str = "{\"filename\": \"000001.jpg\", \"title\": \"Harbour\", \"original_date\": \"1920\", \"edtf_date\": \"1920\", \"source_url\": null, \"description\": null, \"creator\": null, \"reference_id\": null, \"license_name\": \"cc0\", \"rotation\": 0, \"mirror\": \"none\"}";

#[test]
fn scan_reports_bad_names() {
    let entries = vec![
        file("000001.jpg"),
        file("000001.json"),
        file("bogus.json"),
        file("README"),
        file("000003.gif"),
        FolderEntry::Unreadable("permission denied".to_string()),
    ];
    let scan = scan_folder(&entries);
    let errs: Vec<(String, String)> = scan.errors.iter().map(|e| (e.source.clone(), e.message.clone())).collect();
    assert!(errs.contains(&("bogus.json".to_string(), "stem must be six digits".to_string())));
    assert!(errs.contains(&("README".to_string(), "file has no extension".to_string())));
    assert!(errs.contains(&(
        "000003.gif".to_string(),
        "unrecognized file extension `.gif` (allowed: jpg, jpeg, tif, tiff, png, webp)".to_string()
    )));
    assert!(errs.contains(&("folder".to_string(), "directory entry error: permission denied".to_string())));
    assert_eq!(scan.stems.len(), 1);
}

#[test]
fn numbering_must_be_contiguous() {
    let entries = vec![file("000001.jpg"), file("000001.json"), file("000003.jpg"), file("000003.json")];
    let scan = scan_folder(&entries);
    let errs: Vec<(String, String)> = scan.errors.iter().map(|e| (e.source.clone(), e.message.clone())).collect();
    assert_eq!(
        errs,
        vec![(
            "folder".to_string(),
            "numbering must be contiguous 000001..000002; expected `000002` at position 2, found `000003`".to_string()
        )]
    );
}

#[test]
fn duplicate_images_are_strays() {
    let entries = vec![file("000001.jpg"), file("000001.png"), file("000001.json")];
    let scan = scan_folder(&entries);
    let errs: Vec<(String, String)> = scan.errors.iter().map(|e| (e.source.clone(), e.message.clone())).collect();
    assert_eq!(
        errs,
        vec![("000001.png".to_string(), "duplicate image file for stem `000001` (only one image per stem)".to_string())]
    );
}

#[test]
fn preflight_splits_pending_and_completed() {
    let entries = vec![
        file("000002.json.done"),
        file("000001.json"),
        file("000001.jpg"),
        file("000002.jpg"),
    ];
    let scan = scan_folder(&entries);
    assert!(scan.errors.is_empty());
    let mut reads = Vec::new();
    for s in scan.stems.iter() {
        reads.push(match file_to_read(s) {
            Some(p) if p.ends_with(".done") => Some(Ok("{\"committed\": {\"image_id\": 77, \"at\": \"x\"}}".to_string())),
            Some(_) => Some(Ok(SIDECAR_1.to_string())),
            None => None,
        });
    }
    let res = preflight_folder(
        "/in".to_string(),
        scan,
        Some(Ok(vec!["CC0".to_string(), "CC BY 4.0".to_string()])),
        reads,
    );
    assert_eq!(res.folder, "/in");
    assert!(res.errors.is_empty());
    assert_eq!(res.pending.len(), 1);
    assert_eq!(res.pending[0].stem, "000001");
    assert_eq!(res.pending[0].image_path, "/in/000001.jpg");
    assert_eq!(res.pending[0].sidecar.title, "Harbour");
    assert_eq!(res.completed.len(), 1);
    assert_eq!(res.completed[0].stem, "000002");
    assert_eq!(res.completed[0].image_id, Some(77));
    assert_eq!(res.license_names, vec!["CC BY 4.0".to_string(), "CC0".to_string()]);
}

#[test]
fn preflight_blocks_unknown_license_and_fetch_failure() {
    let entries = vec![file("000001.json"), file("000001.jpg")];
    let scan = scan_folder(&entries);
    let reads = vec![Some(Ok(SIDECAR_1.to_string()))];
    let res = preflight_folder("/in".to_string(), scan, Some(Err("licenses 500: boom".to_string())), reads);
    let errs: Vec<(String, String)> = res.errors.iter().map(|e| (e.source.clone(), e.message.clone())).collect();
    assert_eq!(
        errs,
        vec![
            ("folder".to_string(), "could not fetch license list: licenses 500: boom".to_string()),
            ("000001.json".to_string(), "license `cc0` is not recognized by this server".to_string()),
        ]
    );
    assert!(res.pending.is_empty());
}

#[test]
fn preflight_reports_filename_mismatch() {
    let entries = vec![file("000001.json"), file("000001.png")];
    let scan = scan_folder(&entries);
    let reads = vec![Some(Ok(SIDECAR_1.to_string()))];
    let res = preflight_folder("/in".to_string(), scan, Some(Ok(vec!["CC0".to_string()])), reads);
    let errs: Vec<(String, String)> = res.errors.iter().map(|e| (e.source.clone(), e.message.clone())).collect();
    assert_eq!(
        errs,
        vec![("000001.json".to_string(), "`filename` is \"000001.jpg\" but paired image is `000001.png`".to_string())]
    );
}

fn input(stem: &str) -> ImportInput {
    ImportInput {
        stem: stem.to_string(),
        sidecar_path: format!("/in/{}.json", stem),
        image_path: format!("/in/{}.jpg", stem),
    }
}

#[test]
fn status_updates_read_back() {
    let mut state = batch_from_inputs(vec![input("000001"), input("000002")]);
    assert!(state.items.iter().all(|i| i.status == ImportStatus::Pending && i.error.is_none()));
    update_import_status(&mut state, "000002", ImportStatus::Committed, None, Some(55));
    assert_eq!(state.items[1].status, ImportStatus::Committed);
    assert_eq!(state.items[1].image_id, Some(55));
    assert_eq!(state.items[0].status, ImportStatus::Pending);
    update_import_status(&mut state, "000002", ImportStatus::Failed, Some("x".to_string()), None);
    assert_eq!(state.items[1].image_id, Some(55));
    assert_eq!(state.items[1].error, Some("x".to_string()));
    update_import_status(&mut state, "999999", ImportStatus::Failed, None, None);
    assert_eq!(state.items[0].status, ImportStatus::Pending);
}

#[test]
fn resume_retries_failed_items() {
    let mut state = batch_from_inputs(vec![input("000001"), input("000002"), input("000003")]);
    update_import_status(&mut state, "000001", ImportStatus::Committed, None, Some(1));
    update_import_status(&mut state, "000002", ImportStatus::Failed, Some("boom".to_string()), None);
    reset_failed(&mut state);
    assert_eq!(state.items[0].status, ImportStatus::Committed);
    assert_eq!(state.items[1].status, ImportStatus::Pending);
    assert_eq!(state.items[1].error, None);
    let pending = pending_of(&state);
    let stems: Vec<String> = pending.iter().map(|i| i.stem.clone()).collect();
    assert_eq!(stems, vec!["000002".to_string(), "000003".to_string()]);
}

fn item(stem: &str) -> ImportItem {
    ImportItem {
        stem: stem.to_string(),
        sidecar_path: format!("/in/{}.json", stem),
        image_path: format!("/in/{}.jpg", stem),
        status: ImportStatus::Pending,
        error: None,
        image_id: None,
    }
}

#[test]
fn dispatcher_imports_then_stops_on_failure() {
    let mut run = ImportRun::new(vec![item("000001"), item("000002"), item("000003")]);
    match run.step(ImportEvent::Next { paused: false }) {
        ImportAction::ReadSidecar { stem, path } => {
            assert_eq!(stem, "000001");
            assert_eq!(path, "/in/000001.json");
        }
        other => panic!("unexpected {:?}", other),
    }
    match run.step(ImportEvent::SidecarRead(Ok(SIDECAR_1.to_string()))) {
        ImportAction::Upload { sidecar, image_path } => {
            assert_eq!(sidecar.title, "Harbour");
            assert_eq!(image_path, "/in/000001.jpg");
        }
        other => panic!("unexpected {:?}", other),
    }
    assert!(matches!(run.step(ImportEvent::Uploaded(Ok(42))), ImportAction::MarkDone { image_id: 42, .. }));
    assert!(matches!(
        run.step(ImportEvent::Marked(Ok(()))),
        ImportAction::Persist { status: ImportStatus::Committed, image_id: Some(42), .. }
    ));
    match run.step(ImportEvent::Persisted(Ok(()))) {
        ImportAction::Progress { done, total, status, .. } => {
            assert_eq!((done, total), (1, 3));
            assert_eq!(status, ImportStatus::Committed);
        }
        other => panic!("unexpected {:?}", other),
    }
    assert!(matches!(run.step(ImportEvent::Notified), ImportAction::Advance));
    assert!(matches!(run.step(ImportEvent::Next { paused: false }), ImportAction::ReadSidecar { .. }));
    match run.step(ImportEvent::SidecarRead(Err("gone".to_string()))) {
        ImportAction::Persist { status, error, .. } => {
            assert_eq!(status, ImportStatus::Failed);
            assert_eq!(error, Some("read sidecar: gone".to_string()));
        }
        other => panic!("unexpected {:?}", other),
    }
    assert!(matches!(run.step(ImportEvent::Persisted(Ok(()))), ImportAction::Progress { done: 2, .. }));
    assert!(matches!(run.step(ImportEvent::Notified), ImportAction::Complete { stopped_on_error: true }));
    assert!(matches!(run.step(ImportEvent::Next { paused: false }), ImportAction::Ignored));
}

#[test]
fn dispatcher_reports_rename_failure() {
    let mut run = ImportRun::new(vec![item("000001")]);
    run.step(ImportEvent::Next { paused: false });
    run.step(ImportEvent::SidecarRead(Ok(SIDECAR_1.to_string())));
    run.step(ImportEvent::Uploaded(Ok(9)));
    match run.step(ImportEvent::Marked(Err("disk full".to_string()))) {
        ImportAction::Persist { error, .. } => {
            assert_eq!(error, Some("imported as #9 but failed to rename sidecar: disk full".to_string()))
        }
        other => panic!("unexpected {:?}", other),
    }
    match run.step(ImportEvent::Persisted(Err("ro".to_string()))) {
        ImportAction::Error { message } => assert_eq!(
            message,
            "Imported #9 but failed to persist state: ro. Resume may re-upload — investigate before continuing."
        ),
        other => panic!("unexpected {:?}", other),
    }
}

#[test]
fn paused_run_completes_without_starting() {
    let mut run = ImportRun::new(vec![item("000001")]);
    assert!(matches!(run.step(ImportEvent::Next { paused: true }), ImportAction::Complete { stopped_on_error: false }));
}

#[test]
fn batch_guards() {
    assert_eq!(check_can_start(true), Err("An import batch is already in progress.".to_string()));
    assert_eq!(check_can_start(false), Ok(()));
    assert_eq!(check_can_resume(false), Err("No import batch to resume.".to_string()));
    let a = ActiveImports::new(7, "/in".to_string());
    assert_eq!(check_can_clear(Some(&a), 7), Err("Pause the in-progress batch before clearing.".to_string()));
    assert_eq!(check_can_clear(Some(&a), 8), Ok(()));
    a.pause();
    let r = state_response(vec![item("000001")], Some(&a), a.is_paused(), 7);
    assert!(r.active && r.paused);
    assert_eq!(r.folder, Some("/in".to_string()));
    let r = state_response(Vec::new(), Some(&a), a.is_paused(), 8);
    assert!(!r.active && !r.paused && r.folder.is_none());
    let slot = ImportsAppState::new();
    assert!(slot.inner.lock().unwrap().is_none());
    let _ = ImportsState { items: Vec::new() };
}

#[test]
fn timestamps_and_calendar() {
    assert_eq!(format_iso8601(0, 0), "1970-01-01T00:00:00.000000Z");
    assert_eq!(format_iso8601(951782400, 5), "2000-02-29T00:00:00.000005Z");
    assert_eq!(format_iso8601(1700000000, 123456), "2023-11-14T22:13:20.123456Z");
    assert_eq!(civil_from_days(59), (1970, 3, 1));
    assert!(is_leap_year(2000));
    assert!(!is_leap_year(1900));
    assert!(is_leap_year(2024));
    assert!(!is_leap_year(2023));
    assert!(is_leap_year(-4));
    let now = chrono_now_iso8601();
    assert_eq!(now.len(), 27);
    assert!(now.ends_with('Z'));
}

#[test]
fn last_timestamp_before_year_ten_thousand() {
    let ts = format_iso8601(253_402_300_799, 999_999);
    assert_eq!(ts, "9999-12-31T23:59:59.999999Z");
    assert_eq!(ts.len(), 27);
    assert_eq!(format_iso8601(86_399, 7).len(), 27);
}
