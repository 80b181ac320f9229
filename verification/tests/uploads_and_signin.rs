use yesterdays::digest::{generate_pkce, pkce_challenge, preview_key, preview_path};
use yesterdays::done::{collection_dir, done_document, done_paths, license_names, licenses_url, LicenseReply};
use yesterdays::json::JsonValue;
use yesterdays::oauth::{
    authorize_url, bearer, callback_response, cancel_url, code_exchange_form, extract_code_from_request,
    instance_base, instance_info, me_url, redirect_uri, refresh_decision, refresh_form, register_url,
    registration_body, request_target, stats_url, token_url, AuthState, TokenState,
};
use yesterdays::replacements::{
    check_can_clear_replacements, check_can_resume_replacements, check_can_start_replacements,
    content_type_for_file, delete_failure_message, new_replacement_batch, outcome_status,
    pending_replacements_of, persist_failure_message, replacements_response, reset_failed_replacements,
    should_delete_file, update_replacement_status, ActiveReplacements, ReplacementInput, ReplacementStatus,
    ReplacementsAppState,
};
use yesterdays::sidecar::Sidecar;
use yesterdays::upload::{commit_payload, CommitTarget, UploadAction, UploadEvent, UploadFlow, UploadInfo};

fn batch() -> yesterdays::replacements::ReplacementsState {
    let inputs = vec![
        ReplacementInput { image_id: 5, file_path: "/f/a.tif".to_string() },
        ReplacementInput { image_id: 6, file_path: "/f/b.tif".to_string() },
    ];
    new_replacement_batch(&inputs, Some(true))
}

#[test]
fn replacement_batches() {
    let mut state = batch();
    assert!(state.delete_on_success);
    assert!(!new_replacement_batch(&Vec::new(), None).delete_on_success);
    update_replacement_status(&mut state, 6, ReplacementStatus::Failed, Some("boom".to_string()));
    assert_eq!(state.items[1].status, ReplacementStatus::Failed);
    assert_eq!(state.items[1].error, Some("boom".to_string()));
    update_replacement_status(&mut state, 5, ReplacementStatus::Committed, None);
    assert_eq!(pending_replacements_of(&state).len(), 0);
    reset_failed_replacements(&mut state);
    assert_eq!(state.items[1].status, ReplacementStatus::Pending);
    assert_eq!(state.items[1].error, None);
    assert_eq!(state.items[0].status, ReplacementStatus::Committed);
    let pending = pending_replacements_of(&state);
    assert_eq!(pending.len(), 1);
    assert_eq!(pending[0].image_id, 6);
}

#[test]
fn replacement_item_aftermath() {
    assert_eq!(outcome_status(Ok(())), (ReplacementStatus::Committed, None));
    assert_eq!(outcome_status(Err("e".to_string())), (ReplacementStatus::Failed, Some("e".to_string())));
    assert!(should_delete_file(true, ReplacementStatus::Committed, true));
    assert!(!should_delete_file(true, ReplacementStatus::Committed, false));
    assert!(!should_delete_file(true, ReplacementStatus::Failed, true));
    assert!(!should_delete_file(false, ReplacementStatus::Committed, true));
    assert_eq!(
        persist_failure_message("disk"),
        "Failed to persist batch state: disk. Paused to prevent re-upload on resume."
    );
    assert_eq!(delete_failure_message(5, "/f/a.tif", "busy"), "Uploaded image #5 but failed to delete /f/a.tif: busy");
}

#[test]
fn replacement_guards() {
    assert_eq!(check_can_start_replacements(true), Err("An upload batch is already in progress.".to_string()));
    assert_eq!(check_can_resume_replacements(false), Err("No replacements batch to resume.".to_string()));
    let a = ActiveReplacements::new(3);
    assert!(!a.is_paused());
    assert_eq!(
        check_can_clear_replacements(Some(&a), 3),
        Err("Pause the in-progress batch before clearing.".to_string())
    );
    assert_eq!(check_can_clear_replacements(None, 3), Ok(()));
    let r = replacements_response(batch().items, Some(&a), a.is_paused(), 3);
    assert!(r.active && !r.paused && r.items.len() == 2);
    let slot = ReplacementsAppState::new();
    assert!(slot.inner.lock().unwrap().is_none());
}

#[test]
fn content_types() {
    assert_eq!(content_type_for_file("/a/b.JPG"), "image/jpeg");
    assert_eq!(content_type_for_file("/a/b.jpe"), "image/jpeg");
    assert_eq!(content_type_for_file("/a/b.tiff"), "image/tiff");
    assert_eq!(content_type_for_file("/a/b.png"), "image/png");
    assert_eq!(content_type_for_file("/a/b.raw"), "application/octet-stream");
    assert_eq!(content_type_for_file("/a/b"), "application/octet-stream");
}

fn info() -> UploadInfo {
    UploadInfo {
        slot_id: "slot-1".to_string(),
        upload_url: "https://r2.example/put".to_string(),
        upload_headers: vec![("x-amz-acl".to_string(), "private".to_string())],
    }
}

#[test]
fn replacement_upload_flow() {
    let mut f = UploadFlow::new("https://y.org".to_string(), 9, "/f/a.TIF".to_string(), CommitTarget::Replace(77));
    match f.step(UploadEvent::Begin) {
        UploadAction::RequestSlot { endpoint, query } => {
            assert_eq!(endpoint, "https://y.org/api/v2/import/upload-url/");
            assert_eq!(
                query,
                vec![("collection".to_string(), "9".to_string()), ("content_type".to_string(), "image/tiff".to_string())]
            );
        }
        other => panic!("unexpected {:?}", other),
    }
    assert!(matches!(f.step(UploadEvent::SlotRead(Ok(info()))), UploadAction::ReadSize { .. }));
    assert!(matches!(f.step(UploadEvent::Size(Ok(1234))), UploadAction::OpenFile { .. }));
    match f.step(UploadEvent::Opened(Ok(()))) {
        UploadAction::Put { url, content_length, headers } => {
            assert_eq!(url, "https://r2.example/put");
            assert_eq!(content_length, 1234);
            assert_eq!(headers, vec![("x-amz-acl".to_string(), "private".to_string())]);
        }
        other => panic!("unexpected {:?}", other),
    }
    match f.step(UploadEvent::Stored) {
        UploadAction::Commit { endpoint, payload } => {
            assert_eq!(endpoint, "https://y.org/api/v2/images/77/replace/");
            match payload {
                JsonValue::Object(m) => {
                    assert_eq!(m.len(), 1);
                    assert_eq!(m[0].0, "slot_id");
                    assert!(matches!(&m[0].1, JsonValue::Str(s) if s == "slot-1"));
                }
                _ => panic!("expected an object"),
            }
        }
        other => panic!("unexpected {:?}", other),
    }
    assert!(matches!(f.step(UploadEvent::Stored), UploadAction::Succeeded { image_id: None }));
    assert!(matches!(f.step(UploadEvent::Stored), UploadAction::Ignored));
}

#[test]
fn upload_failures_are_reported_by_stage() {
    let mut f = UploadFlow::new("https://y.org".to_string(), 9, "/f/a.png".to_string(), CommitTarget::Replace(1));
    f.step(UploadEvent::Begin);
    match f.step(UploadEvent::Rejected { status: "403 Forbidden".to_string(), body: "  no \n".to_string() }) {
        UploadAction::Failed { message } => assert_eq!(message, "upload-url 403 Forbidden: no"),
        other => panic!("unexpected {:?}", other),
    }
    let mut g = UploadFlow::new("https://y.org".to_string(), 9, "/f/a.png".to_string(), CommitTarget::Replace(1));
    g.step(UploadEvent::Begin);
    g.step(UploadEvent::SlotRead(Ok(info())));
    match g.step(UploadEvent::Size(Err("missing".to_string()))) {
        UploadAction::Failed { message } => assert_eq!(message, "stat /f/a.png: missing"),
        other => panic!("unexpected {:?}", other),
    }
    let mut h = UploadFlow::new("https://y.org".to_string(), 9, "/f/a.png".to_string(), CommitTarget::Replace(1));
    h.step(UploadEvent::Begin);
    h.step(UploadEvent::SlotRead(Ok(info())));
    h.step(UploadEvent::Size(Ok(1)));
    h.step(UploadEvent::Opened(Ok(())));
    match h.step(UploadEvent::SendFailed("reset".to_string())) {
        UploadAction::Failed { message } => assert_eq!(message, "upload PUT failed: reset"),
        other => panic!("unexpected {:?}", other),
    }
}

fn sidecar() -> Sidecar {
    Sidecar {
        filename: "000001.jpg".to_string(),
        title: "Harbour".to_string(),
        original_date: "1920".to_string(),
        edtf_date: "1920".to_string(),
        source_url: None,
        description: Some("Boats".to_string()),
        creator: None,
        reference_id: None,
        license_name: Some("CC0".to_string()),
        rotation: 90,
        mirror: "h".to_string(),
        subjects: vec!["boats".to_string()],
    }
}

#[test]
fn import_upload_commits_with_sidecar_fields() {
    let payload = commit_payload("s1", &CommitTarget::Import(sidecar()));
    let m = match payload {
        JsonValue::Object(m) => m,
        _ => panic!("expected an object"),
    };
    let keys: Vec<&str> = m.iter().map(|(k, _)| k.as_str()).collect();
    assert_eq!(
        keys,
        vec![
            "creator", "description", "edtf_date", "license_name", "mirror", "original_date", "reference_id",
            "rotation", "slot_id", "source_url", "subjects", "title"
        ]
    );
    assert!(matches!(&m[0].1, JsonValue::Str(s) if s.is_empty()));
    assert!(matches!(&m[1].1, JsonValue::Str(s) if s == "Boats"));
    assert!(matches!(&m[7].1, JsonValue::Number(Some(90))));
    assert!(matches!(&m[10].1, JsonValue::Array(a) if a.len() == 1));
    let mut f = UploadFlow::new("https://y.org".to_string(), 1, "/in/000001.jpg".to_string(), CommitTarget::Import(sidecar()));
    f.step(UploadEvent::Begin);
    f.step(UploadEvent::SlotRead(Ok(info())));
    f.step(UploadEvent::Size(Ok(1)));
    f.step(UploadEvent::Opened(Ok(())));
    match f.step(UploadEvent::Stored) {
        UploadAction::Commit { endpoint, .. } => assert_eq!(endpoint, "https://y.org/api/v2/import/commit/"),
        other => panic!("unexpected {:?}", other),
    }
    match f.step(UploadEvent::Rejected { status: "400 Bad Request".to_string(), body: "bad".to_string() }) {
        UploadAction::Failed { message } => assert_eq!(message, "commit 400 Bad Request: bad"),
        other => panic!("unexpected {:?}", other),
    }
    let mut g = UploadFlow::new("https://y.org".to_string(), 1, "/in/000001.jpg".to_string(), CommitTarget::Import(sidecar()));
    g.step(UploadEvent::Begin);
    g.step(UploadEvent::SlotRead(Ok(info())));
    g.step(UploadEvent::Size(Ok(1)));
    g.step(UploadEvent::Opened(Ok(())));
    g.step(UploadEvent::Stored);
    assert!(matches!(g.step(UploadEvent::CommitRead(Ok(501))), UploadAction::Succeeded { image_id: Some(501) }));
}

#[test]
fn token_refresh_decisions() {
    assert_eq!(refresh_decision(false, ""), Ok(false));
    assert_eq!(refresh_decision(true, "r"), Ok(true));
    assert_eq!(
        refresh_decision(true, ""),
        Err("access token expired and no refresh token available".to_string())
    );
    let mut t = TokenState { access_token: "a".to_string(), refresh_token: "r".to_string() };
    t.apply_refresh("a2".to_string(), None);
    assert_eq!((t.access_token.as_str(), t.refresh_token.as_str()), ("a2", "r"));
    t.apply_refresh("a3".to_string(), Some("r3".to_string()));
    assert_eq!((t.access_token.as_str(), t.refresh_token.as_str()), ("a3", "r3"));
}

#[test]
fn callback_request_lines() {
    assert_eq!(
        extract_code_from_request("GET /callback?code=abc123&state=x HTTP/1.1\r\n"),
        Ok("abc123".to_string())
    );
    assert_eq!(extract_code_from_request("GET /cancel HTTP/1.1"), Err("Cancelled".to_string()));
    assert_eq!(
        extract_code_from_request("GET /callback?error=access_denied HTTP/1.1"),
        Err("Authorization failed: access_denied".to_string())
    );
    assert_eq!(
        extract_code_from_request("GET /callback HTTP/1.1"),
        Err("Authorization failed: unknown error".to_string())
    );
    assert_eq!(extract_code_from_request("GET"), Err("Invalid HTTP request".to_string()));
    assert_eq!(extract_code_from_request(""), Err("Invalid HTTP request".to_string()));
    assert_eq!(
        extract_code_from_request("GET /callback?code=a%20b HTTP/1.1"),
        Ok("a b".to_string())
    );
    assert_eq!(request_target("  GET   /x  HTTP/1.1"), Some("/x".to_string()));
}

#[test]
fn endpoints_and_forms() {
    assert_eq!(instance_base("https://y.org//"), "https://y.org");
    assert_eq!(stats_url("https://y.org"), "https://y.org/api/v2/stats/");
    assert_eq!(register_url("https://y.org"), "https://y.org/api/v2/apps/");
    assert_eq!(token_url("https://y.org"), "https://y.org/oauth/token/");
    assert_eq!(me_url("https://y.org"), "https://y.org/api/v2/auth/me/");
    assert_eq!(licenses_url("https://y.org"), "https://y.org/api/v2/licenses/");
    assert_eq!(redirect_uri(5555), "http://127.0.0.1:5555/callback");
    assert_eq!(cancel_url(5555), "http://127.0.0.1:5555/cancel");
    assert_eq!(bearer("tok"), "Bearer tok");
    assert_eq!(
        authorize_url("https://y.org", "cid", "http://127.0.0.1:5555/callback", "chal"),
        "https://y.org/oauth/authorize/?response_type=code&client_id=cid&redirect_uri=http%3A%2F%2F127.0.0.1%3A5555%2Fcallback&code_challenge=chal&code_challenge_method=S256&scope=read%20import"
    );
    let form = code_exchange_form("c", "r", "id", "v");
    assert_eq!(form[0], ("grant_type".to_string(), "authorization_code".to_string()));
    assert_eq!(form[4], ("code_verifier".to_string(), "v".to_string()));
    let rf = refresh_form("rt", "id");
    assert_eq!(rf[0], ("grant_type".to_string(), "refresh_token".to_string()));
    assert_eq!(rf.len(), 3);
    match registration_body() {
        JsonValue::Object(m) => {
            assert_eq!(m.len(), 3);
            assert!(matches!(&m[1].1, JsonValue::Str(s) if s == "Yesterdays Desktop"));
        }
        _ => panic!("expected an object"),
    }
    let resp = callback_response();
    assert!(resp.starts_with("HTTP/1.1 200 OK\r\nContent-Type: text/html\r\nContent-Length: "));
    let body = resp.split("\r\n\r\n").nth(1).unwrap();
    assert!(resp.contains(&format!("Content-Length: {}\r\n", body.len())));
    let _ = AuthState::new();
}

#[test]
fn instance_names() {
    let named = JsonValue::Object(vec![("name".to_string(), JsonValue::Str("Old Town".to_string()))]);
    assert_eq!(instance_info("https://y.org".to_string(), &named).name, "Old Town");
    let unnamed = JsonValue::Object(vec![("name".to_string(), JsonValue::Number(Some(1)))]);
    assert_eq!(instance_info("https://y.org".to_string(), &unnamed).name, "Yesterdays Instance");
    assert_eq!(instance_info("u".to_string(), &JsonValue::Null).name, "Yesterdays Instance");
}

#[test]
fn pkce_pairs_and_preview_keys() {
    assert_eq!(pkce_challenge("abc"), "ungWv48Bz-pBQUDeXa4iI7ADYaOWF3qctBD_YfIAFa0");
    let (verifier, challenge) = generate_pkce();
    assert_eq!(verifier.len(), 86);
    assert!(verifier.chars().all(|c| c.is_ascii_alphanumeric() || c == '-' || c == '_'));
    assert_eq!(challenge, pkce_challenge(&verifier));
    let (other, _) = generate_pkce();
    assert_ne!(verifier, other);
    assert_eq!(preview_key("/photos/IMG_0001.tif"), "bc3BAyoCECbVBBdb");
    assert_eq!(preview_path("/prev", "/photos/IMG_0001.tif"), "/prev/bc3BAyoCECbVBBdb.jpg");
}

#[test]
fn done_marking() {
    let doc = done_document("{\"title\": \"T\", \"filename\": \"a.jpg\"}", 42, "2024-01-01T00:00:00.000000Z").unwrap();
    match doc {
        JsonValue::Object(m) => {
            let keys: Vec<&str> = m.iter().map(|(k, _)| k.as_str()).collect();
            assert_eq!(keys, vec!["committed", "filename", "title"]);
            match &m[0].1 {
                JsonValue::Object(c) => {
                    assert_eq!(c[0].0, "at");
                    assert!(matches!(&c[1].1, JsonValue::Number(Some(42))));
                }
                _ => panic!("expected the committed block"),
            }
        }
        _ => panic!("expected an object"),
    }
    let again = done_document("{\"committed\": 1, \"z\": 2}", 7, "t").unwrap();
    match again {
        JsonValue::Object(m) => assert_eq!(m.len(), 2),
        _ => panic!("expected an object"),
    }
    assert_eq!(done_document("[1]", 1, "t").err(), Some("sidecar root must be an object".to_string()));
    assert!(done_document("{", 1, "t").err().unwrap().starts_with("parse sidecar for done-marking: "));
    assert_eq!(
        done_paths("/in/000001.json"),
        ("/in/000001.json.done".to_string(), "/in/000001.json.done.tmp".to_string())
    );
    assert_eq!(collection_dir("/cache", 12), "/cache/collections/12");
}

#[test]
fn license_replies() {
    assert_eq!(
        license_names(LicenseReply::SendFailed("dns".to_string())),
        Err("licenses request failed: dns".to_string())
    );
    assert_eq!(
        license_names(LicenseReply::Rejected { status: "500 Internal Server Error".to_string(), body: " x ".to_string() }),
        Err("licenses 500 Internal Server Error: x".to_string())
    );
    assert_eq!(
        license_names(LicenseReply::Parsed(Err("eof".to_string()))),
        Err("licenses parse failed: eof".to_string())
    );
    assert_eq!(license_names(LicenseReply::Parsed(Ok(vec!["CC0".to_string()]))), Ok(vec!["CC0".to_string()]));
}

#[test]
fn trailing_slashes_do_not_change_the_license_request() {
    use_base("https://h.org");
}

fn use_base(url: &str) {
    let plain = yesterdays::done::licenses_url(&instance_base(url));
    for extra in ["/", "//", "///"] {
        let with = format!("{}{}", url, extra);
        assert_eq!(yesterdays::done::licenses_url(&instance_base(&with)), plain);
    }
}
