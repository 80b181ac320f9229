//! The batch that is running right now, shared between the dispatcher and
//! the commands that pause it or report on it.
use std::sync::atomic::AtomicBool;
use std::sync::atomic::Ordering;
use std::sync::Arc;
use std::sync::Mutex;

use vstd::prelude::*;

use crate::imports::{item_views, ImportItem};
use crate::sidecar::opt_view;
use crate::text::to_string;

verus! {

/// std's mutex, carried through opaquely.
#[verifier::external_type_specification]
#[verifier::external_body]
#[verifier::reject_recursive_types(T)]
pub struct ExMutex<T: ?Sized>(Mutex<T>);

/// The running import batch.
#[derive(Debug)]
pub struct ActiveImports {
    pub collection_id: u64,
    pub folder: String,
    pub paused: AtomicBool,
}

impl ActiveImports {
    /// A batch for `collection_id` that is not paused.
    pub fn new(collection_id: u64, folder: String) -> (res: ActiveImports)
        ensures
            res.collection_id == collection_id,
            res.folder@ == folder@,
    {
        ActiveImports { collection_id, folder, paused: AtomicBool::new(false) }
    }

    /// Whether the user asked the batch to pause. The flag is read from an
    /// atomic that other threads set; Verus knows no value of an atomic, so
    /// the result is not stated.
    pub fn is_paused(&self) -> bool {
        self.paused.load(Ordering::Relaxed)
    }

    /// Asks the batch to stop before its next item.
    pub fn pause(&self) {
        self.paused.store(true, Ordering::SeqCst);
    }
}

/// The slot that holds the running import batch, if any.
#[derive(Debug)]
pub struct ImportsAppState {
    pub inner: Mutex<Option<Arc<ActiveImports>>>,
}

/// A mutex holding `value` (std's `Mutex::new`). Trusted, with nothing
/// stated: the mutex is opaque to the rest of the crate.
#[verifier::external_body]
pub(crate) fn new_mutex<T>(value: T) -> Mutex<T> {
    Mutex::new(value)
}

impl ImportsAppState {
    /// No batch running.
    /// The mutex is opaque to Verus and its contents change through shared
    /// references, so that it starts out empty is not stated.
    pub fn new() -> ImportsAppState {
        ImportsAppState { inner: new_mutex(None) }
    }
}

/// A new batch may start only when none is running.
pub fn check_can_start(running: bool) -> (res: Result<(), String>)
    ensures
        match res {
            Ok(()) => !running,
            Err(e) => running && e@ == "An import batch is already in progress."@,
        },
{
    if running {
        Err(to_string("An import batch is already in progress."))
    } else {
        Ok(())
    }
}

/// A batch's state file may be cleared unless that batch is running.
pub fn check_can_clear(active: Option<&ActiveImports>, collection_id: u64) -> (res: Result<
    (),
    String,
>)
    ensures
        match res {
            Ok(()) => !(active matches Some(a) && a.collection_id == collection_id),
            Err(e) => (active matches Some(a) && a.collection_id == collection_id) && e@
                == "Pause the in-progress batch before clearing."@,
        },
{
    if let Some(a) = active {
        if a.collection_id == collection_id {
            return Err(to_string("Pause the in-progress batch before clearing."));
        }
    }
    Ok(())
}

#[derive(Debug)]
pub struct ImportsStateResponse {
    pub items: Vec<ImportItem>,
    pub active: bool,
    pub paused: bool,
    pub folder: Option<String>,
}

/// The state of a collection's batch as the UI sees it: its items, and
/// whether the running batch (if it is this collection's) is paused, where
/// `paused` is the reading of that batch's pause flag.
pub fn state_response(
    items: Vec<ImportItem>,
    active: Option<&ActiveImports>,
    paused: bool,
    collection_id: u64,
) -> (res: ImportsStateResponse)
    ensures
        item_views(res.items@) == item_views(items@),
        res.active == (active matches Some(a) && a.collection_id == collection_id),
        res.paused == (res.active && paused),
        !res.active ==> res.folder is None,
        res.active ==> opt_view(res.folder) == Some(active->0.folder@),
{
    match active {
        Some(a) => {
            if a.collection_id == collection_id {
                return ImportsStateResponse {
                    items,
                    active: true,
                    paused,
                    folder: Some(a.folder.clone()),
                };
            }
        },
        None => {},
    }
    ImportsStateResponse { items, active: false, paused: false, folder: None }
}

} // verus!

verus! {

/// An import batch can be resumed only if its state file is there.
pub fn check_can_resume(state_exists: bool) -> (res: Result<(), String>)
    ensures
        match res {
            Ok(()) => state_exists,
            Err(e) => !state_exists && e@ == "No import batch to resume."@,
        },
{
    if state_exists {
        Ok(())
    } else {
        Err(to_string("No import batch to resume."))
    }
}

} // verus!
