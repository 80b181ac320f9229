//! Uploading one image to the instance: ask for an upload slot, stream the
//! file to it, then commit the slot, as a new import or as the replacement
//! of an existing image. The caller performs each request and reports back;
//! the decisions (what to send next, what a failure is reported as) are made
//! here.
use vstd::prelude::*;

use crate::json::JsonValue;
use crate::replacements::{content_type, content_type_for_file};
use crate::sidecar::{opt_view, views, Sidecar, SidecarView};
use crate::text::{decimal, push_decimal, push_str, to_string, trim, trimmed};
use crate::web::pairs_view;

verus! {

/// What the upload-slot request answers.
#[derive(Debug)]
pub struct UploadInfo {
    pub slot_id: String,
    pub upload_url: String,
    /// Headers the storage expects on the upload.
    pub upload_headers: Vec<(String, String)>,
}

pub struct UploadInfoView {
    pub slot_id: Seq<char>,
    pub upload_url: Seq<char>,
    pub upload_headers: Seq<(Seq<char>, Seq<char>)>,
}

impl View for UploadInfo {
    type V = UploadInfoView;

    open spec fn view(&self) -> UploadInfoView {
        UploadInfoView {
            slot_id: self.slot_id@,
            upload_url: self.upload_url@,
            upload_headers: pairs_view(self.upload_headers@),
        }
    }
}

fn copy_pairs(v: &Vec<(String, String)>) -> (res: Vec<(String, String)>)
    ensures
        pairs_view(res@) == pairs_view(v@),
{
    let mut out: Vec<(String, String)> = Vec::new();
    for i in 0..v.len()
        invariant
            out@.len() == i,
            pairs_view(out@) == pairs_view(v@).take(i as int),
    {
        let ghost before = out@;
        out.push((to_string(v[i].0.as_str()), to_string(v[i].1.as_str())));
        assert(out@ == before.push(out@[i as int]));
        assert(pairs_view(out@) =~= pairs_view(v@).take(i + 1));
    }
    assert(pairs_view(v@).take(v@.len() as int) == pairs_view(v@));
    out
}

/// What the committed slot becomes.
#[derive(Debug)]
pub enum CommitTarget {
    /// A new image, described by its sidecar.
    Import(Sidecar),
    /// A new file for the existing image with this id.
    Replace(u64),
}

pub enum CommitTargetView {
    Import(SidecarView),
    Replace(u64),
}

impl View for CommitTarget {
    type V = CommitTargetView;

    open spec fn view(&self) -> CommitTargetView {
        match self {
            CommitTarget::Import(s) => CommitTargetView::Import(s@),
            CommitTarget::Replace(id) => CommitTargetView::Replace(*id),
        }
    }
}

#[derive(Clone, Copy, Debug, PartialEq, Eq, Structural)]
pub enum UploadStage {
    /// Nothing sent yet.
    Start,
    /// Waiting for the upload slot.
    AwaitSlot,
    /// Waiting for the file's size.
    AwaitSize,
    /// Waiting for the file to be opened.
    AwaitOpen,
    /// Waiting for the upload itself.
    AwaitPut,
    /// Waiting for the commit.
    AwaitCommit,
    Finished,
}

/// One image's upload in progress.
#[derive(Debug)]
pub struct UploadFlow {
    pub instance_url: String,
    pub collection_id: u64,
    pub file_path: String,
    pub target: CommitTarget,
    pub stage: UploadStage,
    /// The slot, once granted.
    pub slot: Option<UploadInfo>,
    /// The file's size, once read.
    pub content_length: u64,
}

pub struct UploadFlowView {
    pub instance_url: Seq<char>,
    pub collection_id: u64,
    pub file_path: Seq<char>,
    pub target: CommitTargetView,
    pub stage: UploadStage,
    pub slot: Option<UploadInfoView>,
    pub content_length: u64,
}

impl View for UploadFlow {
    type V = UploadFlowView;

    open spec fn view(&self) -> UploadFlowView {
        UploadFlowView {
            instance_url: self.instance_url@,
            collection_id: self.collection_id,
            file_path: self.file_path@,
            target: self.target@,
            stage: self.stage,
            slot: match self.slot {
                Some(i) => Some(i@),
                None => None,
            },
            content_length: self.content_length,
        }
    }
}

/// What the caller reports back.
#[derive(Debug)]
pub enum UploadEvent {
    /// Start the upload.
    Begin,
    /// The request could not be sent, or its reply not read.
    SendFailed(String),
    /// The server answered with a status other than success.
    Rejected { status: String, body: String },
    /// The slot request succeeded; its body as read, or why it did not read.
    SlotRead(Result<UploadInfo, String>),
    /// The file's size, or why it could not be read.
    Size(Result<u64, String>),
    /// Whether the file could be opened for streaming.
    Opened(Result<(), String>),
    /// The upload or a replacement commit succeeded.
    Stored,
    /// An import commit succeeded; the new image's id as read, or why it did
    /// not read.
    CommitRead(Result<i64, String>),
}

pub enum UploadEventView {
    Begin,
    SendFailed(Seq<char>),
    Rejected { status: Seq<char>, body: Seq<char> },
    SlotRead(Result<UploadInfoView, Seq<char>>),
    Size(Result<u64, Seq<char>>),
    Opened(Result<(), Seq<char>>),
    Stored,
    CommitRead(Result<i64, Seq<char>>),
}

impl View for UploadEvent {
    type V = UploadEventView;

    open spec fn view(&self) -> UploadEventView {
        match self {
            UploadEvent::Begin => UploadEventView::Begin,
            UploadEvent::SendFailed(e) => UploadEventView::SendFailed(e@),
            UploadEvent::Rejected { status, body } => UploadEventView::Rejected {
                status: status@,
                body: body@,
            },
            UploadEvent::SlotRead(r) => UploadEventView::SlotRead(
                match r {
                    Ok(i) => Ok(i@),
                    Err(e) => Err(e@),
                },
            ),
            UploadEvent::Size(r) => UploadEventView::Size(
                match r {
                    Ok(n) => Ok(*n),
                    Err(e) => Err(e@),
                },
            ),
            UploadEvent::Opened(r) => UploadEventView::Opened(
                match r {
                    Ok(()) => Ok(()),
                    Err(e) => Err(e@),
                },
            ),
            UploadEvent::Stored => UploadEventView::Stored,
            UploadEvent::CommitRead(r) => UploadEventView::CommitRead(
                match r {
                    Ok(n) => Ok(*n),
                    Err(e) => Err(e@),
                },
            ),
        }
    }
}

/// What the caller does next. Requests to the instance carry its bearer
/// token; the upload itself goes to the slot's URL as it is.
#[derive(Debug)]
pub enum UploadAction {
    /// GET `endpoint` with these query pairs.
    RequestSlot { endpoint: String, query: Vec<(String, String)> },
    /// Read the size of the file at `path`.
    ReadSize { path: String },
    /// Open the file at `path` for streaming.
    OpenFile { path: String },
    /// PUT the file's bytes to `url` with these headers.
    Put { url: String, content_length: u64, headers: Vec<(String, String)> },
    /// POST `payload` to `endpoint`.
    Commit { endpoint: String, payload: JsonValue },
    /// The upload failed with this message.
    Failed { message: String },
    /// The upload is committed; for an import, the new image's id.
    Succeeded { image_id: Option<i64> },
    Ignored,
}

/// An action without its payload.
pub enum UploadActionView {
    RequestSlot { endpoint: Seq<char>, query: Seq<(Seq<char>, Seq<char>)> },
    ReadSize { path: Seq<char> },
    OpenFile { path: Seq<char> },
    Put { url: Seq<char>, content_length: u64, headers: Seq<(Seq<char>, Seq<char>)> },
    Commit { endpoint: Seq<char> },
    Failed { message: Seq<char> },
    Succeeded { image_id: Option<i64> },
    Ignored,
}

impl View for UploadAction {
    type V = UploadActionView;

    open spec fn view(&self) -> UploadActionView {
        match self {
            UploadAction::RequestSlot { endpoint, query } => UploadActionView::RequestSlot {
                endpoint: endpoint@,
                query: pairs_view(query@),
            },
            UploadAction::ReadSize { path } => UploadActionView::ReadSize { path: path@ },
            UploadAction::OpenFile { path } => UploadActionView::OpenFile { path: path@ },
            UploadAction::Put { url, content_length, headers } => UploadActionView::Put {
                url: url@,
                content_length: *content_length,
                headers: pairs_view(headers@),
            },
            UploadAction::Commit { endpoint, .. } => UploadActionView::Commit { endpoint: endpoint@ },
            UploadAction::Failed { message } => UploadActionView::Failed { message: message@ },
            UploadAction::Succeeded { image_id } => UploadActionView::Succeeded {
                image_id: *image_id,
            },
            UploadAction::Ignored => UploadActionView::Ignored,
        }
    }
}

/// The endpoint that grants upload slots.
pub open spec fn slot_endpoint(instance: Seq<char>) -> Seq<char> {
    instance + "/api/v2/import/upload-url/"@
}

/// The endpoint that commits a slot.
pub open spec fn commit_endpoint(instance: Seq<char>, target: CommitTargetView) -> Seq<char> {
    match target {
        CommitTargetView::Import(_) => instance + "/api/v2/import/commit/"@,
        CommitTargetView::Replace(id) => instance + "/api/v2/images/"@ + decimal(id as nat)
            + "/replace/"@,
    }
}

/// The word failures of the commit are reported under.
pub open spec fn commit_word(target: CommitTargetView) -> Seq<char> {
    match target {
        CommitTargetView::Import(_) => "commit"@,
        CommitTargetView::Replace(_) => "replace"@,
    }
}

/// How a rejected request is reported: what it was, the status, and the
/// reply's text without surrounding whitespace.
pub open spec fn rejected_msg(what: Seq<char>, status: Seq<char>, body: Seq<char>) -> Seq<char> {
    what + " "@ + status + ": "@ + trim(body)
}

/// The flow in a new stage.
pub open spec fn moved(f: UploadFlowView, stage: UploadStage) -> UploadFlowView {
    UploadFlowView { stage, ..f }
}

/// A failure: the flow ends with this message.
pub open spec fn failed(f: UploadFlowView, message: Seq<char>) -> (UploadFlowView, UploadActionView) {
    (moved(f, UploadStage::Finished), UploadActionView::Failed { message })
}

/// One step of an upload: the next state and the action to perform.
pub open spec fn upload_step(f: UploadFlowView, ev: UploadEventView) -> (UploadFlowView, UploadActionView) {
    match (f.stage, ev) {
        (UploadStage::Start, UploadEventView::Begin) => (
            moved(f, UploadStage::AwaitSlot),
            UploadActionView::RequestSlot {
                endpoint: slot_endpoint(f.instance_url),
                query: seq![
                    ("collection"@, decimal(f.collection_id as nat)),
                    ("content_type"@, content_type(f.file_path)),
                ],
            },
        ),
        (UploadStage::AwaitSlot, UploadEventView::SendFailed(e)) => failed(
            f,
            "upload-url request failed: "@ + e,
        ),
        (UploadStage::AwaitSlot, UploadEventView::Rejected { status, body }) => failed(
            f,
            rejected_msg("upload-url"@, status, body),
        ),
        (UploadStage::AwaitSlot, UploadEventView::SlotRead(r)) => match r {
            Err(e) => failed(f, "upload-url parse failed: "@ + e),
            Ok(info) => (
                UploadFlowView { stage: UploadStage::AwaitSize, slot: Some(info), ..f },
                UploadActionView::ReadSize { path: f.file_path },
            ),
        },
        (UploadStage::AwaitSize, UploadEventView::Size(r)) => match r {
            Err(e) => failed(f, "stat "@ + f.file_path + ": "@ + e),
            Ok(n) => (
                UploadFlowView { stage: UploadStage::AwaitOpen, content_length: n, ..f },
                UploadActionView::OpenFile { path: f.file_path },
            ),
        },
        (UploadStage::AwaitOpen, UploadEventView::Opened(r)) => match r {
            Err(e) => failed(f, "open "@ + f.file_path + ": "@ + e),
            Ok(()) => (
                moved(f, UploadStage::AwaitPut),
                UploadActionView::Put {
                    url: f.slot->Some_0.upload_url,
                    content_length: f.content_length,
                    headers: f.slot->Some_0.upload_headers,
                },
            ),
        },
        (UploadStage::AwaitPut, UploadEventView::SendFailed(e)) => failed(
            f,
            "upload PUT failed: "@ + e,
        ),
        (UploadStage::AwaitPut, UploadEventView::Rejected { status, body }) => failed(
            f,
            rejected_msg("R2 PUT"@, status, body),
        ),
        (UploadStage::AwaitPut, UploadEventView::Stored) => (
            moved(f, UploadStage::AwaitCommit),
            UploadActionView::Commit { endpoint: commit_endpoint(f.instance_url, f.target) },
        ),
        (UploadStage::AwaitCommit, UploadEventView::SendFailed(e)) => failed(
            f,
            commit_word(f.target) + " request failed: "@ + e,
        ),
        (UploadStage::AwaitCommit, UploadEventView::Rejected { status, body }) => failed(
            f,
            rejected_msg(commit_word(f.target), status, body),
        ),
        (UploadStage::AwaitCommit, UploadEventView::Stored) => match f.target {
            CommitTargetView::Replace(_) => (
                moved(f, UploadStage::Finished),
                UploadActionView::Succeeded { image_id: None },
            ),
            CommitTargetView::Import(_) => (f, UploadActionView::Ignored),
        },
        (UploadStage::AwaitCommit, UploadEventView::CommitRead(r)) => match f.target {
            CommitTargetView::Import(_) => match r {
                Err(e) => failed(f, "commit parse failed: "@ + e),
                Ok(id) => (
                    moved(f, UploadStage::Finished),
                    UploadActionView::Succeeded { image_id: Some(id) },
                ),
            },
            CommitTargetView::Replace(_) => (f, UploadActionView::Ignored),
        },
        _ => (f, UploadActionView::Ignored),
    }
}

/// The flow is consistent: a slot is held from the moment it is granted.
pub open spec fn flow_wf(f: UploadFlowView) -> bool {
    (f.stage == UploadStage::AwaitSize || f.stage == UploadStage::AwaitOpen || f.stage
        == UploadStage::AwaitPut || f.stage == UploadStage::AwaitCommit) ==> f.slot is Some
}

} // verus!

verus! {

/// A present string, or the empty one.
pub open spec fn or_blank(o: Option<Seq<char>>) -> Seq<char> {
    match o {
        Some(s) => s,
        None => Seq::empty(),
    }
}

/// `v` is the string `s`.
pub open spec fn json_str(v: JsonValue, s: Seq<char>) -> bool {
    v matches JsonValue::Str(x) && x@ == s
}

/// `m[i]` is the member `key`.
pub open spec fn key_at(m: Seq<(String, JsonValue)>, i: int, key: Seq<char>) -> bool {
    m[i].0@ == key
}

/// `v` is the body that commits slot `slot` for `target`: for a
/// replacement just the slot; for an import the slot with the sidecar's
/// fields, absent optional ones as empty strings, keys in sorted order.
pub open spec fn is_commit_payload(v: JsonValue, slot: Seq<char>, target: CommitTargetView) -> bool {
    match (v, target) {
        (JsonValue::Object(m), CommitTargetView::Replace(_)) => m@.len() == 1 && key_at(
            m@,
            0,
            "slot_id"@,
        ) && json_str(m@[0].1, slot),
        (JsonValue::Object(m), CommitTargetView::Import(sc)) => {
            let m = m@;
            &&& m.len() == 12
            &&& key_at(m, 0, "creator"@) && json_str(m[0].1, or_blank(sc.creator))
            &&& key_at(m, 1, "description"@) && json_str(m[1].1, or_blank(sc.description))
            &&& key_at(m, 2, "edtf_date"@) && json_str(m[2].1, sc.edtf_date)
            &&& key_at(m, 3, "license_name"@) && json_str(m[3].1, or_blank(sc.license_name))
            &&& key_at(m, 4, "mirror"@) && json_str(m[4].1, sc.mirror)
            &&& key_at(m, 5, "original_date"@) && json_str(m[5].1, sc.original_date)
            &&& key_at(m, 6, "reference_id"@) && json_str(m[6].1, or_blank(sc.reference_id))
            &&& key_at(m, 7, "rotation"@) && m[7].1 == JsonValue::Number(Some(sc.rotation))
            &&& key_at(m, 8, "slot_id"@) && json_str(m[8].1, slot)
            &&& key_at(m, 9, "source_url"@) && json_str(m[9].1, or_blank(sc.source_url))
            &&& key_at(m, 10, "subjects"@) && (m[10].1 matches JsonValue::Array(a) && a@.len()
                == sc.subjects.len() && forall|i: int|
                0 <= i < a@.len() ==> json_str(#[trigger] a@[i], sc.subjects[i]))
            &&& key_at(m, 11, "title"@) && json_str(m[11].1, sc.title)
        },
        _ => false,
    }
}

fn member(key: &str, v: JsonValue) -> (res: (String, JsonValue))
    ensures
        res.0@ == key@,
        res.1 == v,
{
    (to_string(key), v)
}

fn str_value(s: &str) -> (v: JsonValue)
    ensures
        json_str(v, s@),
{
    JsonValue::Str(to_string(s))
}

fn blank_or(o: &Option<String>) -> (v: JsonValue)
    ensures
        json_str(v, or_blank(opt_view(*o))),
{
    match o {
        Some(s) => {
            let t = s.as_str();
            assert(t@ == s@);
            let v = str_value(t);
            assert(opt_view(*o) == Some(s@));
            assert(json_str(v, or_blank(opt_view(*o))));
            v
        },
        None => {
            proof {
                reveal_strlit("");
            }
            let v = str_value("");
            assert(""@ =~= Seq::<char>::empty());
            assert(opt_view(*o) == None::<Seq<char>>);
            assert(json_str(v, or_blank(opt_view(*o))));
            v
        },
    }
}

/// The JSON body that commits slot `slot_id` for `target`.
pub fn commit_payload(slot_id: &str, target: &CommitTarget) -> (res: JsonValue)
    ensures
        is_commit_payload(res, slot_id@, target@),
{
    match target {
        CommitTarget::Replace(_) => {
            let mut m: Vec<(String, JsonValue)> = Vec::new();
            m.push(member("slot_id", str_value(slot_id)));
            JsonValue::Object(m)
        },
        CommitTarget::Import(sc) => {
            let mut subjects: Vec<JsonValue> = Vec::new();
            for i in 0..sc.subjects.len()
                invariant
                    subjects@.len() == i,
                    forall|j: int| 0 <= j < i ==> json_str(#[trigger] subjects@[j], sc.subjects@[j]@),
            {
                subjects.push(str_value(sc.subjects[i].as_str()));
            }
            assert(views(sc.subjects@).len() == sc.subjects@.len());
            assert(forall|j: int| 0 <= j < sc.subjects@.len() ==> #[trigger] views(sc.subjects@)[j] == sc.subjects@[j]@);
            let mut m: Vec<(String, JsonValue)> = Vec::new();
            m.push(member("creator", blank_or(&sc.creator)));
            m.push(member("description", blank_or(&sc.description)));
            m.push(member("edtf_date", str_value(sc.edtf_date.as_str())));
            m.push(member("license_name", blank_or(&sc.license_name)));
            m.push(member("mirror", str_value(sc.mirror.as_str())));
            m.push(member("original_date", str_value(sc.original_date.as_str())));
            m.push(member("reference_id", blank_or(&sc.reference_id)));
            m.push(member("rotation", JsonValue::Number(Some(sc.rotation))));
            m.push(member("slot_id", str_value(slot_id)));
            m.push(member("source_url", blank_or(&sc.source_url)));
            m.push(member("subjects", JsonValue::Array(subjects)));
            m.push(member("title", str_value(sc.title.as_str())));
            JsonValue::Object(m)
        },
    }
}

impl UploadFlow {
    /// An upload of the file at `file_path` into `collection_id`, committed
    /// as `target`, with nothing sent yet.
    pub fn new(instance_url: String, collection_id: u64, file_path: String, target: CommitTarget) -> (f:
        UploadFlow)
        ensures
            f@ == (UploadFlowView {
                instance_url: instance_url@,
                collection_id,
                file_path: file_path@,
                target: target@,
                stage: UploadStage::Start,
                slot: None,
                content_length: 0,
            }),
            flow_wf(f@),
    {
        UploadFlow {
            instance_url,
            collection_id,
            file_path,
            target,
            stage: UploadStage::Start,
            slot: None,
            content_length: 0,
        }
    }

    fn fail(&mut self, message: String) -> (a: UploadAction)
        ensures
            final(self)@ == moved(old(self)@, UploadStage::Finished),
            a@ == (UploadActionView::Failed { message: message@ }),
    {
        self.stage = UploadStage::Finished;
        UploadAction::Failed { message }
    }

    fn rejected(&mut self, what: &str, status: &str, body: &str) -> (a: UploadAction)
        ensures
            final(self)@ == moved(old(self)@, UploadStage::Finished),
            a@ == (UploadActionView::Failed { message: rejected_msg(what@, status@, body@) }),
    {
        let mut m = to_string(what);
        push_str(&mut m, " ");
        push_str(&mut m, status);
        push_str(&mut m, ": ");
        let b = trimmed(body);
        push_str(&mut m, b.as_str());
        self.fail(m)
    }

    fn commit_word_str(&self) -> (s: &'static str)
        ensures
            s@ == commit_word(self.target@),
    {
        match &self.target {
            CommitTarget::Import(_) => "commit",
            CommitTarget::Replace(_) => "replace",
        }
    }

    /// Advances the upload by one event.
    pub fn step(&mut self, ev: UploadEvent) -> (a: UploadAction)
        requires
            flow_wf(old(self)@),
        ensures
            flow_wf(final(self)@),
            (final(self)@, a@) == upload_step(old(self)@, ev@),
            a matches UploadAction::Commit { payload, .. } ==> is_commit_payload(
                payload,
                old(self)@.slot->Some_0.slot_id,
                old(self)@.target,
            ),
    {
        proof {
            reveal_strlit("commit");
            reveal_strlit("replace");
        }
        match (self.stage, ev) {
            (UploadStage::Start, UploadEvent::Begin) => {
                self.stage = UploadStage::AwaitSlot;
                let mut endpoint = to_string(self.instance_url.as_str());
                push_str(&mut endpoint, "/api/v2/import/upload-url/");
                let mut query: Vec<(String, String)> = Vec::new();
                let mut cid = String::new();
                push_decimal(&mut cid, self.collection_id);
                query.push((to_string("collection"), cid));
                query.push((to_string("content_type"), content_type_for_file(self.file_path.as_str())));
                assert(pairs_view(query@) =~= seq![
                    ("collection"@, decimal(old(self)@.collection_id as nat)),
                    ("content_type"@, content_type(old(self)@.file_path)),
                ]);
                let a = UploadAction::RequestSlot { endpoint, query };
                assert(a@ == upload_step(old(self)@, ev@).1);
                a
            },
            (UploadStage::AwaitSlot, UploadEvent::SendFailed(e)) => {
                let mut m = to_string("upload-url request failed: ");
                push_str(&mut m, e.as_str());
                self.fail(m)
            },
            (UploadStage::AwaitSlot, UploadEvent::Rejected { status, body }) => {
                self.rejected("upload-url", status.as_str(), body.as_str())
            },
            (UploadStage::AwaitSlot, UploadEvent::SlotRead(r)) => {
                match r {
                    Err(e) => {
                        let mut m = to_string("upload-url parse failed: ");
                        push_str(&mut m, e.as_str());
                        self.fail(m)
                    },
                    Ok(info) => {
                        self.stage = UploadStage::AwaitSize;
                        self.slot = Some(info);
                        UploadAction::ReadSize { path: to_string(self.file_path.as_str()) }
                    },
                }
            },
            (UploadStage::AwaitSize, UploadEvent::Size(r)) => {
                match r {
                    Err(e) => {
                        let mut m = to_string("stat ");
                        push_str(&mut m, self.file_path.as_str());
                        push_str(&mut m, ": ");
                        push_str(&mut m, e.as_str());
                        self.fail(m)
                    },
                    Ok(n) => {
                        self.stage = UploadStage::AwaitOpen;
                        self.content_length = n;
                        UploadAction::OpenFile { path: to_string(self.file_path.as_str()) }
                    },
                }
            },
            (UploadStage::AwaitOpen, UploadEvent::Opened(r)) => {
                match r {
                    Err(e) => {
                        let mut m = to_string("open ");
                        push_str(&mut m, self.file_path.as_str());
                        push_str(&mut m, ": ");
                        push_str(&mut m, e.as_str());
                        self.fail(m)
                    },
                    Ok(()) => {
                        self.stage = UploadStage::AwaitPut;
                        match &self.slot {
                            Some(info) => UploadAction::Put {
                                url: to_string(info.upload_url.as_str()),
                                content_length: self.content_length,
                                headers: copy_pairs(&info.upload_headers),
                            },
                            None => UploadAction::Ignored,
                        }
                    },
                }
            },
            (UploadStage::AwaitPut, UploadEvent::SendFailed(e)) => {
                let mut m = to_string("upload PUT failed: ");
                push_str(&mut m, e.as_str());
                self.fail(m)
            },
            (UploadStage::AwaitPut, UploadEvent::Rejected { status, body }) => {
                self.rejected("R2 PUT", status.as_str(), body.as_str())
            },
            (UploadStage::AwaitPut, UploadEvent::Stored) => {
                self.stage = UploadStage::AwaitCommit;
                let mut endpoint = to_string(self.instance_url.as_str());
                match &self.target {
                    CommitTarget::Import(_) => {
                        push_str(&mut endpoint, "/api/v2/import/commit/");
                    },
                    CommitTarget::Replace(id) => {
                        push_str(&mut endpoint, "/api/v2/images/");
                        push_decimal(&mut endpoint, *id);
                        push_str(&mut endpoint, "/replace/");
                    },
                }
                match &self.slot {
                    Some(info) => {
                        let payload = commit_payload(info.slot_id.as_str(), &self.target);
                        UploadAction::Commit { endpoint, payload }
                    },
                    None => UploadAction::Ignored,
                }
            },
            (UploadStage::AwaitCommit, UploadEvent::SendFailed(e)) => {
                let mut m = to_string(self.commit_word_str());
                push_str(&mut m, " request failed: ");
                push_str(&mut m, e.as_str());
                self.fail(m)
            },
            (UploadStage::AwaitCommit, UploadEvent::Rejected { status, body }) => {
                let w = self.commit_word_str();
                self.rejected(w, status.as_str(), body.as_str())
            },
            (UploadStage::AwaitCommit, UploadEvent::Stored) => {
                match &self.target {
                    CommitTarget::Replace(_) => {
                        self.stage = UploadStage::Finished;
                        UploadAction::Succeeded { image_id: None }
                    },
                    CommitTarget::Import(_) => UploadAction::Ignored,
                }
            },
            (UploadStage::AwaitCommit, UploadEvent::CommitRead(r)) => {
                match &self.target {
                    CommitTarget::Import(_) => match r {
                        Err(e) => {
                            let mut m = to_string("commit parse failed: ");
                            push_str(&mut m, e.as_str());
                            self.fail(m)
                        },
                        Ok(id) => {
                            self.stage = UploadStage::Finished;
                            UploadAction::Succeeded { image_id: Some(id) }
                        },
                    },
                    CommitTarget::Replace(_) => UploadAction::Ignored,
                }
            },
            _ => UploadAction::Ignored,
        }
    }
}

} // verus!

verus! {

/// A finished upload stays finished: every event is ignored.
pub proof fn lemma_upload_finished_is_final(f: UploadFlowView, ev: UploadEventView)
    requires
        f.stage == UploadStage::Finished,
    ensures
        upload_step(f, ev) == (f, UploadActionView::Ignored),
{
}

/// The slot is committed only once the file was stored in it, and only
/// after its size was read and the file opened.
pub proof fn lemma_commit_after_put(f: UploadFlowView, ev: UploadEventView)
    requires
        upload_step(f, ev).1 is Commit,
    ensures
        f.stage == UploadStage::AwaitPut,
        ev == UploadEventView::Stored,
        upload_step(f, ev).1->Commit_endpoint == commit_endpoint(f.instance_url, f.target),
{
}

/// The file goes to the slot the server granted, with the size that was
/// read and the slot's headers.
pub proof fn lemma_put_into_slot(f: UploadFlowView, ev: UploadEventView)
    requires
        upload_step(f, ev).1 is Put,
    ensures
        f.stage == UploadStage::AwaitOpen,
        ev matches UploadEventView::Opened(Ok(_)),
        upload_step(f, ev).1 == (UploadActionView::Put {
            url: f.slot->Some_0.upload_url,
            content_length: f.content_length,
            headers: f.slot->Some_0.upload_headers,
        }),
{
}

/// An upload succeeds only when its commit was accepted: an import with the
/// id the server returned, a replacement without one.
pub proof fn lemma_success_after_commit(f: UploadFlowView, ev: UploadEventView)
    requires
        upload_step(f, ev).1 is Succeeded,
    ensures
        f.stage == UploadStage::AwaitCommit,
        match f.target {
            CommitTargetView::Import(_) => ev matches UploadEventView::CommitRead(Ok(id))
                && upload_step(f, ev).1->Succeeded_image_id == Some(id),
            CommitTargetView::Replace(_) => ev == UploadEventView::Stored
                && upload_step(f, ev).1->Succeeded_image_id is None,
        },
{
}

} // verus!
