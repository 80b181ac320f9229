//! The state of a replacement batch (images re-uploaded from matched local
//! files) and the decisions its dispatcher makes per item.
use std::sync::atomic::AtomicBool;
use std::sync::atomic::Ordering;
use std::sync::Arc;
use std::sync::Mutex;

use vstd::prelude::*;

use crate::paths::{lower_extension, path_extension};
use crate::sidecar::opt_view;
use crate::text::{ascii_lowered, decimal, is_ascii_text, push_decimal, push_str, str_eq, to_string};

verus! {

#[derive(Clone, Copy, Debug, PartialEq, Eq, Structural)]
pub enum ReplacementStatus {
    Pending,
    Committed,
    Failed,
}

#[derive(Debug)]
pub struct ReplacementItem {
    pub image_id: u64,
    pub file_path: String,
    pub status: ReplacementStatus,
    pub error: Option<String>,
}

pub struct ReplacementItemView {
    pub image_id: u64,
    pub file_path: Seq<char>,
    pub status: ReplacementStatus,
    pub error: Option<Seq<char>>,
}

impl View for ReplacementItem {
    type V = ReplacementItemView;

    open spec fn view(&self) -> ReplacementItemView {
        ReplacementItemView {
            image_id: self.image_id,
            file_path: self.file_path@,
            status: self.status,
            error: opt_view(self.error),
        }
    }
}

impl ReplacementItem {
    /// A copy of this item.
    pub fn duplicate(&self) -> (res: ReplacementItem)
        ensures
            res@ == self@,
    {
        ReplacementItem {
            image_id: self.image_id,
            file_path: self.file_path.clone(),
            status: self.status,
            error: match &self.error {
                Some(e) => Some(e.clone()),
                None => None,
            },
        }
    }
}

/// The views of a list of items.
pub open spec fn replacement_views(items: Seq<ReplacementItem>) -> Seq<ReplacementItemView> {
    items.map_values(|i: ReplacementItem| i@)
}

/// A replacement batch as it is stored.
#[derive(Debug)]
pub struct ReplacementsState {
    pub items: Vec<ReplacementItem>,
    /// Delete each local file once its replacement is committed.
    pub delete_on_success: bool,
}

/// One matched image to replace.
#[derive(Debug)]
pub struct ReplacementInput {
    pub image_id: u64,
    pub file_path: String,
}

/// A new batch: every input pending with no error; files are kept unless the
/// caller asked for deletion.
pub fn new_replacement_batch(inputs: &Vec<ReplacementInput>, delete_on_success: Option<bool>) -> (state:
    ReplacementsState)
    ensures
        state.items@.len() == inputs@.len(),
        forall|i: int|
            0 <= i < inputs@.len() ==> #[trigger] state.items@[i]@ == (ReplacementItemView {
                image_id: inputs@[i].image_id,
                file_path: inputs@[i].file_path@,
                status: ReplacementStatus::Pending,
                error: None,
            }),
        state.delete_on_success == (delete_on_success == Some(true)),
{
    let mut items: Vec<ReplacementItem> = Vec::new();
    for i in 0..inputs.len()
        invariant
            items@.len() == i,
            forall|j: int|
                0 <= j < i ==> #[trigger] items@[j]@ == (ReplacementItemView {
                    image_id: inputs@[j].image_id,
                    file_path: inputs@[j].file_path@,
                    status: ReplacementStatus::Pending,
                    error: None,
                }),
    {
        items.push(
            ReplacementItem {
                image_id: inputs[i].image_id,
                file_path: inputs[i].file_path.clone(),
                status: ReplacementStatus::Pending,
                error: None,
            },
        );
    }
    let delete = match delete_on_success {
        Some(b) => b,
        None => false,
    };
    ReplacementsState { items, delete_on_success: delete }
}

/// The index of the first item for this image, if any.
pub open spec fn first_with_id(items: Seq<ReplacementItemView>, image_id: u64) -> Option<int> {
    if exists|i: int| 0 <= i < items.len() && (#[trigger] items[i]).image_id == image_id {
        Some(
            choose|i: int|
                0 <= i < items.len() && (#[trigger] items[i]).image_id == image_id && forall|j: int|
                    0 <= j < i ==> (#[trigger] items[j]).image_id != image_id,
        )
    } else {
        None
    }
}

/// Records a new status and error for the first item of the image; other
/// items stay as they are, and an image that no item has changes nothing.
#[verifier::rlimit(40)]
pub fn update_replacement_status(
    state: &mut ReplacementsState,
    image_id: u64,
    status: ReplacementStatus,
    error: Option<String>,
)
    ensures
        final(state).delete_on_success == old(state).delete_on_success,
        match first_with_id(replacement_views(old(state).items@), image_id) {
            Some(k) => replacement_views(final(state).items@) == replacement_views(
                old(state).items@,
            ).update(
                k,
                ReplacementItemView {
                    status,
                    error: opt_view(error),
                    ..replacement_views(old(state).items@)[k]
                },
            ),
            None => replacement_views(final(state).items@) == replacement_views(old(state).items@),
        },
{
    let ghost old_items = replacement_views(state.items@);
    let mut i: usize = 0;
    while i < state.items.len()
        invariant
            i <= state.items@.len(),
            state.items@ == old(state).items@,
            state.delete_on_success == old(state).delete_on_success,
            old_items == replacement_views(old(state).items@),
            forall|j: int| 0 <= j < i ==> (#[trigger] old_items[j]).image_id != image_id,
        decreases state.items@.len() - i,
    {
        assert(old_items[i as int] == state.items@[i as int]@);
        if state.items[i].image_id == image_id {
            let new_item = ReplacementItem {
                image_id,
                file_path: state.items[i].file_path.clone(),
                status,
                error,
            };
            state.items.set(i, new_item);
            proof {
                let k = first_with_id(old_items, image_id);
                assert(old_items[i as int].image_id == image_id);
                let c = k->0;
                assert(c == i as int) by {
                    if c < i {
                    } else if c > i {
                    }
                }
                assert(replacement_views(state.items@) =~= old_items.update(
                    i as int,
                    ReplacementItemView { status, error: opt_view(error), ..old_items[i as int] },
                ));
            }
            return;
        }
        i = i + 1;
    }
    assert(first_with_id(old_items, image_id) is None);
}

/// An item as a resumed batch sees it: a failed item is pending again with
/// its error cleared; any other item is unchanged.
pub open spec fn resumed_replacement(item: ReplacementItemView) -> ReplacementItemView {
    if item.status == ReplacementStatus::Failed {
        ReplacementItemView { status: ReplacementStatus::Pending, error: None, ..item }
    } else {
        item
    }
}

/// The batch as a resume leaves it.
pub open spec fn resumed_replacements(items: Seq<ReplacementItemView>) -> Seq<ReplacementItemView> {
    items.map_values(|x: ReplacementItemView| resumed_replacement(x))
}

/// Resume retries everything not yet committed.
pub fn reset_failed_replacements(state: &mut ReplacementsState)
    ensures
        final(state).delete_on_success == old(state).delete_on_success,
        replacement_views(final(state).items@) == resumed_replacements(
            replacement_views(old(state).items@),
        ),
{
    let ghost old_items = replacement_views(state.items@);
    let mut i: usize = 0;
    while i < state.items.len()
        invariant
            i <= state.items@.len(),
            state.items@.len() == old_items.len(),
            state.delete_on_success == old(state).delete_on_success,
            old_items == replacement_views(old(state).items@),
            forall|j: int| 0 <= j < i ==> #[trigger] state.items@[j]@ == resumed_replacement(old_items[j]),
            forall|j: int| i <= j < state.items@.len() ==> #[trigger] state.items@[j]@ == old_items[j],
        decreases state.items@.len() - i,
    {
        assert(state.items@[i as int]@ == old_items[i as int]);
        if state.items[i].status == ReplacementStatus::Failed {
            let new_item = ReplacementItem {
                image_id: state.items[i].image_id,
                file_path: state.items[i].file_path.clone(),
                status: ReplacementStatus::Pending,
                error: None,
            };
            state.items.set(i, new_item);
        }
        i = i + 1;
    }
    assert(replacement_views(state.items@) =~= old_items.map_values(
        |i: ReplacementItemView| resumed_replacement(i),
    ));
}

/// The items still to run, in batch order.
pub open spec fn pending_replacements(items: Seq<ReplacementItemView>) -> Seq<ReplacementItemView>
    decreases items.len(),
{
    if items.len() == 0 {
        Seq::empty()
    } else if items.last().status == ReplacementStatus::Pending {
        pending_replacements(items.drop_last()).push(items.last())
    } else {
        pending_replacements(items.drop_last())
    }
}

/// The pending items of a batch, in order.
pub fn pending_replacements_of(state: &ReplacementsState) -> (res: Vec<ReplacementItem>)
    ensures
        replacement_views(res@) == pending_replacements(replacement_views(state.items@)),
{
    let ghost all = replacement_views(state.items@);
    let mut out: Vec<ReplacementItem> = Vec::new();
    let mut i: usize = 0;
    assert(all.take(0) =~= Seq::<ReplacementItemView>::empty());
    while i < state.items.len()
        invariant
            i <= state.items@.len(),
            all == replacement_views(state.items@),
            replacement_views(out@) == pending_replacements(all.take(i as int)),
        decreases state.items@.len() - i,
    {
        assert(all.take(i + 1).drop_last() =~= all.take(i as int));
        assert(all.take(i + 1).last() == state.items@[i as int]@);
        if state.items[i].status == ReplacementStatus::Pending {
            out.push(state.items[i].duplicate());
            assert(replacement_views(out@) =~= pending_replacements(all.take(i + 1)));
        }
        i = i + 1;
    }
    assert(all.take(all.len() as int) =~= all);
    out
}

/// The status and error an upload's outcome gives its item.
pub fn outcome_status(result: Result<(), String>) -> (res: (ReplacementStatus, Option<String>))
    ensures
        match result {
            Ok(()) => res.0 == ReplacementStatus::Committed && res.1 is None,
            Err(e) => res.0 == ReplacementStatus::Failed && opt_view(res.1) == Some(e@),
        },
{
    match result {
        Ok(()) => (ReplacementStatus::Committed, None),
        Err(e) => (ReplacementStatus::Failed, Some(e)),
    }
}

/// The error shown when an item's new status could not be saved; the batch
/// is paused so that a resume does not upload it again.
pub fn persist_failure_message(e: &str) -> (res: String)
    ensures
        res@ == "Failed to persist batch state: "@ + e@
            + ". Paused to prevent re-upload on resume."@,
{
    let mut m = to_string("Failed to persist batch state: ");
    push_str(&mut m, e);
    push_str(&mut m, ". Paused to prevent re-upload on resume.");
    m
}

/// Whether the local file goes: only when the batch asks for it, the image
/// was committed, and that status is safely saved.
pub fn should_delete_file(delete_on_success: bool, status: ReplacementStatus, persisted: bool) -> (res:
    bool)
    ensures
        res == (delete_on_success && status == ReplacementStatus::Committed && persisted),
{
    delete_on_success && status == ReplacementStatus::Committed && persisted
}

/// The error shown when a committed image's local file could not be
/// deleted.
pub fn delete_failure_message(image_id: u64, file_path: &str, e: &str) -> (res: String)
    ensures
        res@ == "Uploaded image #"@ + decimal(image_id as nat) + " but failed to delete "@
            + file_path@ + ": "@ + e@,
{
    let mut m = to_string("Uploaded image #");
    push_decimal(&mut m, image_id);
    push_str(&mut m, " but failed to delete ");
    push_str(&mut m, file_path);
    push_str(&mut m, ": ");
    push_str(&mut m, e);
    m
}

/// The MIME type an upload declares, from the file's extension.
pub open spec fn content_type(path: Seq<char>) -> Seq<char> {
    match lower_extension(path) {
        Some(e) => if e == "jpg"@ || e == "jpeg"@ || e == "jpe"@ {
            "image/jpeg"@
        } else if e == "png"@ {
            "image/png"@
        } else if e == "webp"@ {
            "image/webp"@
        } else if e == "gif"@ {
            "image/gif"@
        } else if e == "bmp"@ {
            "image/bmp"@
        } else if e == "tif"@ || e == "tiff"@ {
            "image/tiff"@
        } else {
            "application/octet-stream"@
        },
        None => "application/octet-stream"@,
    }
}

/// The MIME type an upload declares follows the image types by file
/// extension, in any ASCII case: `jpg`, `jpeg` and `jpe` are JPEG, `png` PNG,
/// `webp` WebP, `gif` GIF, `bmp` BMP, `tif` and `tiff` TIFF; any other
/// extension, and none, is sent as `application/octet-stream`.
pub proof fn lemma_content_type_table(path: Seq<char>, e: Seq<char>)
    ensures
        path_extension(path) is None ==> content_type(path) == "application/octet-stream"@,
        path_extension(path) == Some(e) && is_ascii_text(e) ==> {
            let x = ascii_lowered(e);
            &&& (x == "jpg"@ || x == "jpeg"@ || x == "jpe"@) ==> content_type(path) == "image/jpeg"@
            &&& x == "png"@ ==> content_type(path) == "image/png"@
            &&& x == "webp"@ ==> content_type(path) == "image/webp"@
            &&& x == "gif"@ ==> content_type(path) == "image/gif"@
            &&& x == "bmp"@ ==> content_type(path) == "image/bmp"@
            &&& (x == "tif"@ || x == "tiff"@) ==> content_type(path) == "image/tiff"@
            &&& !(x == "jpg"@ || x == "jpeg"@ || x == "jpe"@ || x == "png"@ || x == "webp"@ || x
                == "gif"@ || x == "bmp"@ || x == "tif"@ || x == "tiff"@) ==> content_type(path)
                == "application/octet-stream"@
        },
{
    reveal_strlit("jpg");
    reveal_strlit("jpeg");
    reveal_strlit("jpe");
    reveal_strlit("png");
    reveal_strlit("webp");
    reveal_strlit("gif");
    reveal_strlit("bmp");
    reveal_strlit("tif");
    reveal_strlit("tiff");
    if path_extension(path) == Some(e) && is_ascii_text(e) {
        let x = ascii_lowered(e);
        assert(lower_extension(path) == Some(x));
        assert(content_type(path) == (if x == "jpg"@ || x == "jpeg"@ || x == "jpe"@ {
            "image/jpeg"@
        } else if x == "png"@ {
            "image/png"@
        } else if x == "webp"@ {
            "image/webp"@
        } else if x == "gif"@ {
            "image/gif"@
        } else if x == "bmp"@ {
            "image/bmp"@
        } else if x == "tif"@ || x == "tiff"@ {
            "image/tiff"@
        } else {
            "application/octet-stream"@
        }));
        assert("jpg"@[0] == 'j' && "jpeg"@[0] == 'j' && "jpe"@[0] == 'j' && "png"@[0] == 'p');
        assert("webp"@[0] == 'w' && "gif"@[0] == 'g' && "bmp"@[0] == 'b' && "tif"@[0] == 't');
        assert("tiff"@[0] == 't');
    }
}

/// The MIME type of the file at `path`.
pub fn content_type_for_file(path: &str) -> (res: String)
    ensures
        res@ == content_type(path@),
{
    match crate::paths::lower_extension_of(path) {
        Some(e) => {
            let e = e.as_str();
            if str_eq(e, "jpg") || str_eq(e, "jpeg") || str_eq(e, "jpe") {
                to_string("image/jpeg")
            } else if str_eq(e, "png") {
                to_string("image/png")
            } else if str_eq(e, "webp") {
                to_string("image/webp")
            } else if str_eq(e, "gif") {
                to_string("image/gif")
            } else if str_eq(e, "bmp") {
                to_string("image/bmp")
            } else if str_eq(e, "tif") || str_eq(e, "tiff") {
                to_string("image/tiff")
            } else {
                to_string("application/octet-stream")
            }
        },
        None => to_string("application/octet-stream"),
    }
}

/// The running replacement batch.
#[derive(Debug)]
pub struct ActiveReplacements {
    pub collection_id: u64,
    pub paused: AtomicBool,
}

impl ActiveReplacements {
    /// A batch for `collection_id` that is not paused.
    pub fn new(collection_id: u64) -> (res: ActiveReplacements)
        ensures
            res.collection_id == collection_id,
    {
        ActiveReplacements { collection_id, paused: AtomicBool::new(false) }
    }

    /// Whether the batch was asked to pause. The flag is read from an
    /// atomic that other threads set; Verus knows no value of an atomic, so
    /// the result is not stated.
    pub fn is_paused(&self) -> bool {
        self.paused.load(Ordering::Relaxed)
    }

    /// Asks the batch to stop before its next item.
    pub fn pause(&self) {
        self.paused.store(true, Ordering::SeqCst);
    }
}

/// The slot that holds the running replacement batch, if any.
#[derive(Debug)]
pub struct ReplacementsAppState {
    pub inner: Mutex<Option<Arc<ActiveReplacements>>>,
}

impl ReplacementsAppState {
    /// No batch running.
    /// The mutex is opaque to Verus and its contents change through shared
    /// references, so that it starts out empty is not stated.
    pub fn new() -> ReplacementsAppState {
        ReplacementsAppState { inner: crate::active::new_mutex(None) }
    }
}

/// A new batch may start only when none is running.
pub fn check_can_start_replacements(running: bool) -> (res: Result<(), String>)
    ensures
        match res {
            Ok(()) => !running,
            Err(e) => running && e@ == "An upload batch is already in progress."@,
        },
{
    if running {
        Err(to_string("An upload batch is already in progress."))
    } else {
        Ok(())
    }
}

/// A batch can be resumed only if its state file is there.
pub fn check_can_resume_replacements(state_exists: bool) -> (res: Result<(), String>)
    ensures
        match res {
            Ok(()) => state_exists,
            Err(e) => !state_exists && e@ == "No replacements batch to resume."@,
        },
{
    if state_exists {
        Ok(())
    } else {
        Err(to_string("No replacements batch to resume."))
    }
}

/// A batch's state may be cleared unless that batch is running.
pub fn check_can_clear_replacements(active: Option<&ActiveReplacements>, collection_id: u64) -> (res:
    Result<(), String>)
    ensures
        match res {
            Ok(()) => !(active matches Some(a) && a.collection_id == collection_id),
            Err(e) => (active matches Some(a) && a.collection_id == collection_id) && e@
                == "Pause the in-progress batch before clearing."@,
        },
{
    if let Some(a) = active {
        if a.collection_id == collection_id {
            return Err(to_string("Pause the in-progress batch before clearing."));
        }
    }
    Ok(())
}

#[derive(Debug)]
pub struct ReplacementsStateResponse {
    pub items: Vec<ReplacementItem>,
    pub active: bool,
    pub paused: bool,
}

/// The state of a collection's batch as the UI sees it, where `paused` is
/// the reading of the running batch's pause flag.
pub fn replacements_response(
    items: Vec<ReplacementItem>,
    active: Option<&ActiveReplacements>,
    paused: bool,
    collection_id: u64,
) -> (res: ReplacementsStateResponse)
    ensures
        replacement_views(res.items@) == replacement_views(items@),
        res.active == (active matches Some(a) && a.collection_id == collection_id),
        res.paused == (res.active && paused),
{
    match active {
        Some(a) => {
            if a.collection_id == collection_id {
                return ReplacementsStateResponse { items, active: true, paused };
            }
        },
        None => {},
    }
    ReplacementsStateResponse { items, active: false, paused: false }
}

} // verus!

verus! {

proof fn lemma_least_id(items: Seq<ReplacementItemView>, image_id: u64, w: int)
    requires
        0 <= w < items.len(),
        items[w].image_id == image_id,
    ensures
        exists|i: int|
            0 <= i < items.len() && (#[trigger] items[i]).image_id == image_id && forall|j: int|
                0 <= j < i ==> (#[trigger] items[j]).image_id != image_id,
    decreases w,
{
    if exists|j: int| 0 <= j < w && (#[trigger] items[j]).image_id == image_id {
        let j = choose|j: int| 0 <= j < w && (#[trigger] items[j]).image_id == image_id;
        lemma_least_id(items, image_id, j);
    } else {
        assert(forall|j: int| 0 <= j < w ==> (#[trigger] items[j]).image_id != image_id);
    }
}

/// What a status update writes can be read back: the first item of the
/// image carries the new status and error, keeping its file; every other
/// item is as it was.
pub proof fn lemma_replacement_update_reads_back(
    before: Seq<ReplacementItemView>,
    after: Seq<ReplacementItemView>,
    image_id: u64,
    status: ReplacementStatus,
    error: Option<Seq<char>>,
    k: int,
)
    requires
        first_with_id(before, image_id) == Some(k),
        after == before.update(k, ReplacementItemView { status, error, ..before[k] }),
    ensures
        0 <= k < after.len(),
        after.len() == before.len(),
        after[k].image_id == image_id,
        after[k].status == status,
        after[k].error == error,
        after[k].file_path == before[k].file_path,
        forall|j: int| 0 <= j < before.len() && j != k ==> after[j] == before[j],
{
    let w = choose|i: int| 0 <= i < before.len() && (#[trigger] before[i]).image_id == image_id;
    lemma_least_id(before, image_id, w);
}

/// After a resume no item is failed: failed items are pending with no
/// error, and committed and pending items are untouched.
pub proof fn lemma_replacements_resume_clears_failures(items: Seq<ReplacementItemView>)
    ensures
        resumed_replacements(items).len() == items.len(),
        forall|i: int|
            0 <= i < items.len() ==> (#[trigger] resumed_replacements(items)[i]).status
                != ReplacementStatus::Failed,
        forall|i: int|
            0 <= i < items.len() && items[i].status != ReplacementStatus::Failed
                ==> #[trigger] resumed_replacements(items)[i] == items[i],
        forall|i: int|
            0 <= i < items.len() && items[i].status == ReplacementStatus::Failed
                ==> (#[trigger] resumed_replacements(items)[i]).error is None,
{
}

/// The items that run are exactly the batch's pending items, in batch order.
pub proof fn lemma_pending_replacements(items: Seq<ReplacementItemView>)
    ensures
        pending_replacements(items) == items.filter(
            |x: ReplacementItemView| x.status == ReplacementStatus::Pending,
        ),
    decreases items.len(),
{
    reveal(Seq::filter);
    if items.len() > 0 {
        lemma_pending_replacements(items.drop_last());
    }
}

} // verus!
