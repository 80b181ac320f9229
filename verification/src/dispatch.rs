//! The decisions of the import dispatcher, as a state machine: the caller
//! performs each action (read a sidecar, upload, rename, persist, emit) and
//! reports its outcome as the next event.
use vstd::prelude::*;

use crate::imports::{item_views, ImportItem, ImportItemView, ImportStatus};
use crate::sidecar::{opt_view, parse_sidecar, sidecar_from_text, Sidecar, SidecarView};
use crate::text::{cat2, push_str, signed_decimal, signed_decimal_string};

verus! {

/// Where the dispatcher stands.
#[derive(Debug)]
pub enum Stage {
    /// Before the item at `index` (or the end).
    NextItem,
    /// Waiting for the item's sidecar text.
    AwaitRead,
    /// Waiting for the upload and commit.
    AwaitUpload,
    /// Waiting for the sidecar to be marked done; the image has this id.
    AwaitMark(i64),
    /// Persisting a failure with this message.
    PersistFailure(String),
    /// Persisting a commit whose sidecar could not be renamed.
    PersistRenameFailed(i64, String),
    /// Persisting a clean commit.
    PersistCommit(i64),
    /// An error event for a rename failure is out; progress follows.
    NoticeRename(i64, String),
    /// An error event for a failed persist is out; progress follows.
    NoticeCommit(i64),
    /// A progress event is out; `true` when the batch stops here.
    AfterProgress(bool),
    Finished,
}

pub enum StageView {
    NextItem,
    AwaitRead,
    AwaitUpload,
    AwaitMark(i64),
    PersistFailure(Seq<char>),
    PersistRenameFailed(i64, Seq<char>),
    PersistCommit(i64),
    NoticeRename(i64, Seq<char>),
    NoticeCommit(i64),
    AfterProgress(bool),
    Finished,
}

impl View for Stage {
    type V = StageView;

    open spec fn view(&self) -> StageView {
        match self {
            Stage::NextItem => StageView::NextItem,
            Stage::AwaitRead => StageView::AwaitRead,
            Stage::AwaitUpload => StageView::AwaitUpload,
            Stage::AwaitMark(id) => StageView::AwaitMark(*id),
            Stage::PersistFailure(m) => StageView::PersistFailure(m@),
            Stage::PersistRenameFailed(id, e) => StageView::PersistRenameFailed(*id, e@),
            Stage::PersistCommit(id) => StageView::PersistCommit(*id),
            Stage::NoticeRename(id, e) => StageView::NoticeRename(*id, e@),
            Stage::NoticeCommit(id) => StageView::NoticeCommit(*id),
            Stage::AfterProgress(stop) => StageView::AfterProgress(*stop),
            Stage::Finished => StageView::Finished,
        }
    }
}

/// What the caller reports back.
#[derive(Debug)]
pub enum ImportEvent {
    /// Ready for the next item; whether the user paused the batch.
    Next { paused: bool },
    /// The sidecar's text, or why it could not be read.
    SidecarRead(Result<String, String>),
    /// The new image id, or why the upload or commit failed.
    Uploaded(Result<i64, String>),
    /// Whether the sidecar was marked done.
    Marked(Result<(), String>),
    /// Whether the batch state was persisted.
    Persisted(Result<(), String>),
    /// The last event was emitted.
    Notified,
}

pub enum ImportEventView {
    Next { paused: bool },
    SidecarRead(Result<Seq<char>, Seq<char>>),
    Uploaded(Result<i64, Seq<char>>),
    Marked(Result<(), Seq<char>>),
    Persisted(Result<(), Seq<char>>),
    Notified,
}

impl View for ImportEvent {
    type V = ImportEventView;

    open spec fn view(&self) -> ImportEventView {
        match self {
            ImportEvent::Next { paused } => ImportEventView::Next { paused: *paused },
            ImportEvent::SidecarRead(r) => ImportEventView::SidecarRead(
                match r {
                    Ok(s) => Ok(s@),
                    Err(e) => Err(e@),
                },
            ),
            ImportEvent::Uploaded(r) => ImportEventView::Uploaded(
                match r {
                    Ok(id) => Ok(*id),
                    Err(e) => Err(e@),
                },
            ),
            ImportEvent::Marked(r) => ImportEventView::Marked(
                match r {
                    Ok(()) => Ok(()),
                    Err(e) => Err(e@),
                },
            ),
            ImportEvent::Persisted(r) => ImportEventView::Persisted(
                match r {
                    Ok(()) => Ok(()),
                    Err(e) => Err(e@),
                },
            ),
            ImportEvent::Notified => ImportEventView::Notified,
        }
    }
}

/// What the caller is to do next.
#[derive(Debug)]
pub enum ImportAction {
    /// Emit the item's activity and read its sidecar.
    ReadSidecar { stem: String, path: String },
    /// Upload the image and commit it with this sidecar.
    Upload { sidecar: Sidecar, image_path: String },
    /// Rename the sidecar to `.json.done`, recording the image id.
    MarkDone { sidecar_path: String, image_id: i64 },
    /// Record the item's new status in the batch state file.
    Persist { stem: String, status: ImportStatus, error: Option<String>, image_id: Option<i64> },
    /// Emit `import-progress`.
    Progress {
        stem: String,
        status: ImportStatus,
        error: Option<String>,
        image_id: Option<i64>,
        done: u32,
        total: u32,
    },
    /// Emit `import-error`.
    Error { message: String },
    /// Report whether the batch is paused, with `Next`.
    Advance,
    /// Emit `import-complete`; the batch is over.
    Complete { stopped_on_error: bool },
    /// The event does not fit the current stage; nothing changed.
    Ignored,
}

#[allow(inconsistent_fields)]
pub enum ImportActionView {
    ReadSidecar { stem: Seq<char>, path: Seq<char> },
    Upload { sidecar: SidecarView, image_path: Seq<char> },
    MarkDone { sidecar_path: Seq<char>, image_id: i64 },
    Persist {
        stem: Seq<char>,
        status: ImportStatus,
        error: Option<Seq<char>>,
        image_id: Option<i64>,
    },
    Progress {
        stem: Seq<char>,
        status: ImportStatus,
        error: Option<Seq<char>>,
        image_id: Option<i64>,
        done: u32,
        total: u32,
    },
    Error { message: Seq<char> },
    Advance,
    Complete { stopped_on_error: bool },
    Ignored,
}

impl View for ImportAction {
    type V = ImportActionView;

    open spec fn view(&self) -> ImportActionView {
        match self {
            ImportAction::ReadSidecar { stem, path } => ImportActionView::ReadSidecar {
                stem: stem@,
                path: path@,
            },
            ImportAction::Upload { sidecar, image_path } => ImportActionView::Upload {
                sidecar: sidecar@,
                image_path: image_path@,
            },
            ImportAction::MarkDone { sidecar_path, image_id } => ImportActionView::MarkDone {
                sidecar_path: sidecar_path@,
                image_id: *image_id,
            },
            ImportAction::Persist { stem, status, error, image_id } => ImportActionView::Persist {
                stem: stem@,
                status: *status,
                error: opt_view(*error),
                image_id: *image_id,
            },
            ImportAction::Progress { stem, status, error, image_id, done, total } =>
                ImportActionView::Progress {
                stem: stem@,
                status: *status,
                error: opt_view(*error),
                image_id: *image_id,
                done: *done,
                total: *total,
            },
            ImportAction::Error { message } => ImportActionView::Error { message: message@ },
            ImportAction::Advance => ImportActionView::Advance,
            ImportAction::Complete { stopped_on_error } => ImportActionView::Complete {
                stopped_on_error: *stopped_on_error,
            },
            ImportAction::Ignored => ImportActionView::Ignored,
        }
    }
}

/// A run of the dispatcher over the pending items of a batch.
#[derive(Debug)]
pub struct ImportRun {
    pub items: Vec<ImportItem>,
    pub index: usize,
    pub done: u32,
    pub total: u32,
    pub stopped_on_error: bool,
    pub stage: Stage,
}

pub struct ImportRunView {
    pub items: Seq<ImportItemView>,
    pub index: int,
    pub done: u32,
    pub total: u32,
    pub stopped_on_error: bool,
    pub stage: StageView,
}

impl View for ImportRun {
    type V = ImportRunView;

    open spec fn view(&self) -> ImportRunView {
        ImportRunView {
            items: item_views(self.items@),
            index: self.index as int,
            done: self.done,
            total: self.total,
            stopped_on_error: self.stopped_on_error,
            stage: self.stage@,
        }
    }
}

/// The counters agree with the stage: one item finished per progress
/// event, never more than the batch holds.
pub open spec fn run_wf(r: ImportRunView) -> bool {
    &&& r.total == r.items.len()
    &&& r.items.len() <= u32::MAX
    &&& 0 <= r.index <= r.items.len()
    &&& match r.stage {
        StageView::NextItem => r.done == r.index,
        StageView::Finished => r.done <= r.items.len(),
        StageView::AfterProgress(_) => r.index < r.items.len() && r.done == r.index + 1,
        _ => r.index < r.items.len() && r.done == r.index,
    }
}

pub open spec fn imported_as(id: i64) -> Seq<char> {
    "imported as #"@ + signed_decimal(id as int)
}

pub open spec fn rename_persist_msg(id: i64, e: Seq<char>) -> Seq<char> {
    imported_as(id) + " but failed to rename sidecar: "@ + e
}

pub open spec fn rename_progress_msg(id: i64, e: Seq<char>) -> Seq<char> {
    imported_as(id) + " but local sidecar rename failed: "@ + e
}

pub open spec fn persist_after_rename_msg(id: i64, pe: Seq<char>) -> Seq<char> {
    "Imported #"@ + signed_decimal(id as int) + " but failed to persist state: "@ + pe
        + ". Resume may re-upload — investigate before continuing."@
}

pub open spec fn persist_failed_msg(id: i64, pe: Seq<char>) -> Seq<char> {
    "Imported #"@ + signed_decimal(id as int) + " but failed to persist state: "@ + pe
        + ". Investigate before resuming."@
}

/// The run with a new stage.
pub open spec fn at(r: ImportRunView, stage: StageView) -> ImportRunView {
    ImportRunView { stage, ..r }
}

/// The progress event for the current item, counting it as done.
pub open spec fn progress(
    r: ImportRunView,
    status: ImportStatus,
    error: Option<Seq<char>>,
    image_id: Option<i64>,
) -> ImportActionView {
    ImportActionView::Progress {
        stem: r.items[r.index].stem,
        status,
        error,
        image_id,
        done: (r.done + 1) as u32,
        total: r.total,
    }
}

/// Counts the current item as done, and stops the batch when `stop`.
pub open spec fn finish_item(r: ImportRunView, stop: bool) -> ImportRunView {
    ImportRunView {
        done: (r.done + 1) as u32,
        stopped_on_error: r.stopped_on_error || stop,
        stage: StageView::AfterProgress(stop),
        ..r
    }
}

/// One step of the dispatcher: the next state and the action to perform.
pub open spec fn import_step(r: ImportRunView, ev: ImportEventView) -> (
    ImportRunView,
    ImportActionView,
) {
    let item = r.items[r.index];
    match (r.stage, ev) {
        (StageView::NextItem, ImportEventView::Next { paused }) => if paused || r.index
            >= r.items.len() {
            (
                at(r, StageView::Finished),
                ImportActionView::Complete { stopped_on_error: r.stopped_on_error },
            )
        } else {
            (
                at(r, StageView::AwaitRead),
                ImportActionView::ReadSidecar { stem: item.stem, path: item.sidecar_path },
            )
        },
        (StageView::AwaitRead, ImportEventView::SidecarRead(read)) => {
            let failure = match read {
                Err(e) => Some("read sidecar: "@ + e),
                Ok(raw) => match sidecar_from_text(raw) {
                    Err(e) => Some(e),
                    Ok(_) => None,
                },
            };
            match failure {
                Some(msg) => (
                    at(r, StageView::PersistFailure(msg)),
                    ImportActionView::Persist {
                        stem: item.stem,
                        status: ImportStatus::Failed,
                        error: Some(msg),
                        image_id: None,
                    },
                ),
                None => (
                    at(r, StageView::AwaitUpload),
                    ImportActionView::Upload {
                        sidecar: sidecar_from_text(read->Ok_0)->Ok_0,
                        image_path: item.image_path,
                    },
                ),
            }
        },
        (StageView::AwaitUpload, ImportEventView::Uploaded(res)) => match res {
            Err(e) => (
                at(r, StageView::PersistFailure(e)),
                ImportActionView::Persist {
                    stem: item.stem,
                    status: ImportStatus::Failed,
                    error: Some(e),
                    image_id: None,
                },
            ),
            Ok(id) => (
                at(r, StageView::AwaitMark(id)),
                ImportActionView::MarkDone { sidecar_path: item.sidecar_path, image_id: id },
            ),
        },
        (StageView::AwaitMark(id), ImportEventView::Marked(res)) => match res {
            Err(e) => (
                at(r, StageView::PersistRenameFailed(id, e)),
                ImportActionView::Persist {
                    stem: item.stem,
                    status: ImportStatus::Committed,
                    error: Some(rename_persist_msg(id, e)),
                    image_id: Some(id),
                },
            ),
            Ok(()) => (
                at(r, StageView::PersistCommit(id)),
                ImportActionView::Persist {
                    stem: item.stem,
                    status: ImportStatus::Committed,
                    error: None,
                    image_id: Some(id),
                },
            ),
        },
        (StageView::PersistFailure(msg), ImportEventView::Persisted(_)) => (
            finish_item(r, true),
            progress(r, ImportStatus::Failed, Some(msg), None),
        ),
        (StageView::PersistRenameFailed(id, e), ImportEventView::Persisted(res)) => match res {
            Err(pe) => (
                at(r, StageView::NoticeRename(id, e)),
                ImportActionView::Error { message: persist_after_rename_msg(id, pe) },
            ),
            Ok(()) => (
                finish_item(r, true),
                progress(
                    r,
                    ImportStatus::Committed,
                    Some(rename_progress_msg(id, e)),
                    Some(id),
                ),
            ),
        },
        (StageView::NoticeRename(id, e), ImportEventView::Notified) => (
            finish_item(r, true),
            progress(r, ImportStatus::Committed, Some(rename_progress_msg(id, e)), Some(id)),
        ),
        (StageView::PersistCommit(id), ImportEventView::Persisted(res)) => match res {
            Err(pe) => (
                at(r, StageView::NoticeCommit(id)),
                ImportActionView::Error { message: persist_failed_msg(id, pe) },
            ),
            Ok(()) => (
                finish_item(r, false),
                progress(r, ImportStatus::Committed, None, Some(id)),
            ),
        },
        (StageView::NoticeCommit(id), ImportEventView::Notified) => (
            finish_item(r, true),
            progress(r, ImportStatus::Committed, None, Some(id)),
        ),
        (StageView::AfterProgress(stop), ImportEventView::Notified) => if stop {
            (
                at(r, StageView::Finished),
                ImportActionView::Complete { stopped_on_error: r.stopped_on_error },
            )
        } else {
            (
                ImportRunView { index: r.index + 1, stage: StageView::NextItem, ..r },
                ImportActionView::Advance,
            )
        },
        _ => (r, ImportActionView::Ignored),
    }
}

} // verus!

verus! {

fn imported_as_string(id: i64) -> (s: String)
    ensures
        s@ == imported_as(id),
{
    let n = signed_decimal_string(id);
    cat2("imported as #", n.as_str())
}

impl ImportRun {
    /// A run over the pending items, before the first one.
    pub fn new(items: Vec<ImportItem>) -> (r: ImportRun)
        requires
            items@.len() <= u32::MAX,
        ensures
            r@ == (ImportRunView {
                items: item_views(items@),
                index: 0,
                done: 0,
                total: items@.len() as u32,
                stopped_on_error: false,
                stage: StageView::NextItem,
            }),
            run_wf(r@),
    {
        let total = items.len() as u32;
        ImportRun { items, index: 0, done: 0, total, stopped_on_error: false, stage: Stage::NextItem }
    }

    fn finish(&mut self, stop: bool, status: ImportStatus, error: Option<String>, image_id: Option<i64>) -> (a: ImportAction)
        requires
            run_wf(old(self)@),
            old(self).index < old(self).items@.len(),
            !(old(self).stage is NextItem || old(self).stage is Finished || old(self).stage is AfterProgress),
        ensures
            final(self)@ == finish_item(old(self)@, stop),
            a@ == progress(old(self)@, status, opt_view(error), image_id),
    {
        self.done = self.done + 1;
        if stop {
            self.stopped_on_error = true;
        }
        self.stage = Stage::AfterProgress(stop);
        assert(item_views(self.items@)[self.index as int] == self.items@[self.index as int]@);
        ImportAction::Progress {
            stem: self.items[self.index].stem.clone(),
            status,
            error,
            image_id,
            done: self.done,
            total: self.total,
        }
    }

    /// Advances the dispatcher by one event.
    pub fn step(&mut self, ev: ImportEvent) -> (a: ImportAction)
        requires
            run_wf(old(self)@),
        ensures
            run_wf(final(self)@),
            (final(self)@, a@) == import_step(old(self)@, ev@),
    {
        let ghost r = self@;
        proof {
            if self.index < self.items@.len() {
                assert(r.items[r.index] == self.items@[self.index as int]@);
            }
        }
        match (&self.stage, ev) {
            (Stage::NextItem, ImportEvent::Next { paused }) => {
                if paused || self.index >= self.items.len() {
                    self.stage = Stage::Finished;
                    ImportAction::Complete { stopped_on_error: self.stopped_on_error }
                } else {
                    self.stage = Stage::AwaitRead;
                    let item = &self.items[self.index];
                    ImportAction::ReadSidecar {
                        stem: item.stem.clone(),
                        path: item.sidecar_path.clone(),
                    }
                }
            },
            (Stage::AwaitRead, ImportEvent::SidecarRead(read)) => {
                let parsed = match read {
                    Err(e) => Err(cat2("read sidecar: ", e.as_str())),
                    Ok(raw) => parse_sidecar(raw.as_str()),
                };
                match parsed {
                    Err(msg) => {
                        let stem = self.items[self.index].stem.clone();
                        self.stage = Stage::PersistFailure(msg.clone());
                        ImportAction::Persist {
                            stem,
                            status: ImportStatus::Failed,
                            error: Some(msg),
                            image_id: None,
                        }
                    },
                    Ok(sidecar) => {
                        self.stage = Stage::AwaitUpload;
                        ImportAction::Upload {
                            sidecar,
                            image_path: self.items[self.index].image_path.clone(),
                        }
                    },
                }
            },
            (Stage::AwaitUpload, ImportEvent::Uploaded(res)) => {
                match res {
                    Err(e) => {
                        let stem = self.items[self.index].stem.clone();
                        self.stage = Stage::PersistFailure(e.clone());
                        ImportAction::Persist {
                            stem,
                            status: ImportStatus::Failed,
                            error: Some(e),
                            image_id: None,
                        }
                    },
                    Ok(id) => {
                        self.stage = Stage::AwaitMark(id);
                        ImportAction::MarkDone {
                            sidecar_path: self.items[self.index].sidecar_path.clone(),
                            image_id: id,
                        }
                    },
                }
            },
            (Stage::AwaitMark(id), ImportEvent::Marked(res)) => {
                let id = *id;
                let stem = self.items[self.index].stem.clone();
                match res {
                    Err(e) => {
                        let mut msg = imported_as_string(id);
                        push_str(&mut msg, " but failed to rename sidecar: ");
                        push_str(&mut msg, e.as_str());
                        self.stage = Stage::PersistRenameFailed(id, e);
                        ImportAction::Persist {
                            stem,
                            status: ImportStatus::Committed,
                            error: Some(msg),
                            image_id: Some(id),
                        }
                    },
                    Ok(()) => {
                        self.stage = Stage::PersistCommit(id);
                        ImportAction::Persist {
                            stem,
                            status: ImportStatus::Committed,
                            error: None,
                            image_id: Some(id),
                        }
                    },
                }
            },
            (Stage::PersistFailure(msg), ImportEvent::Persisted(_)) => {
                let msg = msg.clone();
                self.finish(true, ImportStatus::Failed, Some(msg), None)
            },
            (Stage::PersistRenameFailed(id, e), ImportEvent::Persisted(res)) => {
                let id = *id;
                let e = e.clone();
                match res {
                    Err(pe) => {
                        let n = signed_decimal_string(id);
                        let mut message = cat2("Imported #", n.as_str());
                        push_str(&mut message, " but failed to persist state: ");
                        push_str(&mut message, pe.as_str());
                        push_str(
                            &mut message,
                            ". Resume may re-upload — investigate before continuing.",
                        );
                        self.stage = Stage::NoticeRename(id, e);
                        ImportAction::Error { message }
                    },
                    Ok(()) => {
                        let mut msg = imported_as_string(id);
                        push_str(&mut msg, " but local sidecar rename failed: ");
                        push_str(&mut msg, e.as_str());
                        self.finish(true, ImportStatus::Committed, Some(msg), Some(id))
                    },
                }
            },
            (Stage::NoticeRename(id, e), ImportEvent::Notified) => {
                let id = *id;
                let mut msg = imported_as_string(id);
                push_str(&mut msg, " but local sidecar rename failed: ");
                push_str(&mut msg, e.as_str());
                self.finish(true, ImportStatus::Committed, Some(msg), Some(id))
            },
            (Stage::PersistCommit(id), ImportEvent::Persisted(res)) => {
                let id = *id;
                match res {
                    Err(pe) => {
                        let n = signed_decimal_string(id);
                        let mut message = cat2("Imported #", n.as_str());
                        push_str(&mut message, " but failed to persist state: ");
                        push_str(&mut message, pe.as_str());
                        push_str(&mut message, ". Investigate before resuming.");
                        self.stage = Stage::NoticeCommit(id);
                        ImportAction::Error { message }
                    },
                    Ok(()) => self.finish(false, ImportStatus::Committed, None, Some(id)),
                }
            },
            (Stage::NoticeCommit(id), ImportEvent::Notified) => {
                let id = *id;
                self.finish(true, ImportStatus::Committed, None, Some(id))
            },
            (Stage::AfterProgress(stop), ImportEvent::Notified) => {
                if *stop {
                    self.stage = Stage::Finished;
                    ImportAction::Complete { stopped_on_error: self.stopped_on_error }
                } else {
                    self.index = self.index + 1;
                    self.stage = Stage::NextItem;
                    ImportAction::Advance
                }
            },
            _ => ImportAction::Ignored,
        }
    }
}

} // verus!

verus! {

/// A finished run stays finished: every event is ignored.
pub proof fn lemma_finished_is_final(r: ImportRunView, ev: ImportEventView)
    requires
        r.stage == StageView::Finished,
    ensures
        import_step(r, ev) == (r, ImportActionView::Ignored),
{
}

/// A pause is honoured before the next item: the run completes without
/// starting it.
pub proof fn lemma_pause_stops(r: ImportRunView)
    requires
        r.stage == StageView::NextItem,
    ensures
        import_step(r, ImportEventView::Next { paused: true }) == (
            at(r, StageView::Finished),
            ImportActionView::Complete { stopped_on_error: r.stopped_on_error },
        ),
{
}

/// Only a sidecar that parses is uploaded, and it is uploaded as parsed,
/// with the item's image.
pub proof fn lemma_upload_only_parsed(r: ImportRunView, ev: ImportEventView)
    requires
        import_step(r, ev).1 is Upload,
    ensures
        r.stage == StageView::AwaitRead,
        ev matches ImportEventView::SidecarRead(Ok(raw)) && sidecar_from_text(raw)
            == Ok::<SidecarView, Seq<char>>(import_step(r, ev).1->Upload_sidecar),
        import_step(r, ev).1->Upload_image_path == r.items[r.index].image_path,
{
}

/// A sidecar is marked done only after its pair was committed, with the id
/// the commit returned.
pub proof fn lemma_mark_after_commit(r: ImportRunView, ev: ImportEventView)
    requires
        import_step(r, ev).1 is MarkDone,
    ensures
        r.stage == StageView::AwaitUpload,
        ev == ImportEventView::Uploaded(Ok(import_step(r, ev).1->MarkDone_image_id)),
{
}

/// A failed item stops the batch: its progress event is followed by the
/// run's completion, flagged as stopped on error.
pub proof fn lemma_failure_stops(r: ImportRunView, ev: ImportEventView)
    requires
        import_step(r, ev).1 matches ImportActionView::Progress { status, .. } && status
            == ImportStatus::Failed,
    ensures
        import_step(r, ev).0.stage == StageView::AfterProgress(true),
        import_step(r, ev).0.stopped_on_error,
        import_step(import_step(r, ev).0, ImportEventView::Notified) == (
            at(import_step(r, ev).0, StageView::Finished),
            ImportActionView::Complete { stopped_on_error: true },
        ),
{
}

/// Every step keeps the counters consistent: an item is counted done once,
/// and never more items than the batch holds.
pub proof fn lemma_step_keeps_counts(r: ImportRunView, ev: ImportEventView)
    requires
        run_wf(r),
    ensures
        run_wf(import_step(r, ev).0),
        import_step(r, ev).0.done <= r.items.len(),
{
}

} // verus!

verus! {

/// An item is recorded as committed only once its upload was accepted: a
/// `Committed` status is persisted only from the stage that waits for the
/// sidecar's mark, and with the image id of that stage.
pub proof fn lemma_committed_only_after_upload(r: ImportRunView, ev: ImportEventView)
    requires
        import_step(r, ev).1 is Persist,
        import_step(r, ev).1->Persist_status == ImportStatus::Committed,
    ensures
        r.stage is AwaitMark,
        ev is Marked,
        import_step(r, ev).1->Persist_image_id == Some(r.stage->AwaitMark_0),
{
}

/// The run waits for a sidecar's mark, holding an image id, only right
/// after the upload was accepted with that id.
pub proof fn lemma_await_mark_after_upload(r: ImportRunView, ev: ImportEventView)
    requires
        import_step(r, ev).0.stage is AwaitMark,
        !(r.stage is AwaitMark),
    ensures
        r.stage == StageView::AwaitUpload,
        ev == ImportEventView::Uploaded(Ok(import_step(r, ev).0.stage->AwaitMark_0)),
{
}

/// Every failure of an item is persisted as `Failed`, with the failure's
/// message and no image id, so that a resume retries it: a sidecar that
/// cannot be read, one that does not parse, and an upload or commit that
/// failed.
pub proof fn lemma_failures_persist_failed(r: ImportRunView, ev: ImportEventView)
    ensures
        r.stage == StageView::AwaitUpload && ev is Uploaded && ev->Uploaded_0 is Err ==> import_step(
            r,
            ev,
        ).1 == (ImportActionView::Persist {
            stem: r.items[r.index].stem,
            status: ImportStatus::Failed,
            error: Some(ev->Uploaded_0->Err_0),
            image_id: None,
        }),
        r.stage == StageView::AwaitRead && ev is SidecarRead && ev->SidecarRead_0 is Err ==> import_step(
            r,
            ev,
        ).1 == (ImportActionView::Persist {
            stem: r.items[r.index].stem,
            status: ImportStatus::Failed,
            error: Some("read sidecar: "@ + ev->SidecarRead_0->Err_0),
            image_id: None,
        }),
        r.stage == StageView::AwaitRead && ev is SidecarRead && ev->SidecarRead_0 is Ok
            && sidecar_from_text(ev->SidecarRead_0->Ok_0) is Err ==> import_step(r, ev).1
            == (ImportActionView::Persist {
            stem: r.items[r.index].stem,
            status: ImportStatus::Failed,
            error: Some(sidecar_from_text(ev->SidecarRead_0->Ok_0)->Err_0),
            image_id: None,
        }),
{
}

} // verus!
