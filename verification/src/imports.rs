//! The state of an import batch: its items, their statuses, and the
//! operations the batch commands apply to them.
use vstd::prelude::*;

use crate::sidecar::opt_view;
use crate::text::str_eq;

verus! {

#[derive(Clone, Copy, Debug, PartialEq, Eq, Structural)]
pub enum ImportStatus {
    Pending,
    Committed,
    Failed,
}

#[derive(Debug)]
pub struct ImportItem {
    pub stem: String,
    pub sidecar_path: String,
    pub image_path: String,
    pub status: ImportStatus,
    pub error: Option<String>,
    pub image_id: Option<i64>,
}

pub struct ImportItemView {
    pub stem: Seq<char>,
    pub sidecar_path: Seq<char>,
    pub image_path: Seq<char>,
    pub status: ImportStatus,
    pub error: Option<Seq<char>>,
    pub image_id: Option<i64>,
}

impl View for ImportItem {
    type V = ImportItemView;

    open spec fn view(&self) -> ImportItemView {
        ImportItemView {
            stem: self.stem@,
            sidecar_path: self.sidecar_path@,
            image_path: self.image_path@,
            status: self.status,
            error: opt_view(self.error),
            image_id: self.image_id,
        }
    }
}

impl ImportItem {
    /// A copy of this item.
    pub fn duplicate(&self) -> (res: ImportItem)
        ensures
            res@ == self@,
    {
        ImportItem {
            stem: self.stem.clone(),
            sidecar_path: self.sidecar_path.clone(),
            image_path: self.image_path.clone(),
            status: self.status,
            error: match &self.error {
                Some(e) => Some(e.clone()),
                None => None,
            },
            image_id: self.image_id,
        }
    }
}

#[derive(Debug)]
pub struct ImportsState {
    pub items: Vec<ImportItem>,
}

pub open spec fn item_views(items: Seq<ImportItem>) -> Seq<ImportItemView> {
    items.map_values(|i: ImportItem| i@)
}

/// One pair chosen for import, as the pre-flight listed it.
#[derive(Debug)]
pub struct ImportInput {
    pub stem: String,
    pub sidecar_path: String,
    pub image_path: String,
}

/// A new batch: every chosen pair pending, with no error and no image id.
pub fn batch_from_inputs(inputs: Vec<ImportInput>) -> (state: ImportsState)
    ensures
        state.items@.len() == inputs@.len(),
        forall|i: int|
            0 <= i < inputs@.len() ==> #[trigger] state.items@[i]@ == (ImportItemView {
                stem: inputs@[i].stem@,
                sidecar_path: inputs@[i].sidecar_path@,
                image_path: inputs@[i].image_path@,
                status: ImportStatus::Pending,
                error: None,
                image_id: None,
            }),
{
    let mut items: Vec<ImportItem> = Vec::new();
    let mut i: usize = 0;
    while i < inputs.len()
        invariant
            i <= inputs@.len(),
            items@.len() == i,
            forall|j: int|
                0 <= j < i ==> #[trigger] items@[j]@ == (ImportItemView {
                    stem: inputs@[j].stem@,
                    sidecar_path: inputs@[j].sidecar_path@,
                    image_path: inputs@[j].image_path@,
                    status: ImportStatus::Pending,
                    error: None,
                    image_id: None,
                }),
        decreases inputs@.len() - i,
    {
        items.push(
            ImportItem {
                stem: inputs[i].stem.clone(),
                sidecar_path: inputs[i].sidecar_path.clone(),
                image_path: inputs[i].image_path.clone(),
                status: ImportStatus::Pending,
                error: None,
                image_id: None,
            },
        );
        i = i + 1;
    }
    ImportsState { items }
}

/// The index of the first item with this stem, if any.
pub open spec fn first_with_stem(items: Seq<ImportItemView>, stem: Seq<char>) -> Option<int> {
    if exists|i: int| 0 <= i < items.len() && (#[trigger] items[i]).stem == stem {
        Some(
            choose|i: int|
                0 <= i < items.len() && (#[trigger] items[i]).stem == stem && forall|j: int|
                    0 <= j < i ==> (#[trigger] items[j]).stem != stem,
        )
    } else {
        None
    }
}

/// An item after a status update; a missing image id keeps the old one.
pub open spec fn updated_item(
    item: ImportItemView,
    status: ImportStatus,
    error: Option<Seq<char>>,
    image_id: Option<i64>,
) -> ImportItemView {
    ImportItemView {
        status,
        error,
        image_id: if image_id is Some {
            image_id
        } else {
            item.image_id
        },
        ..item
    }
}

/// Records a new status for the first item with the given stem; other items
/// stay as they are, and a stem that no item has changes nothing.
pub fn update_import_status(
    state: &mut ImportsState,
    stem: &str,
    status: ImportStatus,
    error: Option<String>,
    image_id: Option<i64>,
)
    ensures
        match first_with_stem(item_views(old(state).items@), stem@) {
            Some(k) => item_views(final(state).items@) == item_views(old(state).items@).update(
                k,
                updated_item(item_views(old(state).items@)[k], status, opt_view(error), image_id),
            ),
            None => item_views(final(state).items@) == item_views(old(state).items@),
        },
{
    let ghost old_items = item_views(state.items@);
    let mut i: usize = 0;
    while i < state.items.len()
        invariant
            i <= state.items@.len(),
            state.items@ == old(state).items@,
            old_items == item_views(old(state).items@),
            forall|j: int| 0 <= j < i ==> (#[trigger] old_items[j]).stem != stem@,
        decreases state.items@.len() - i,
    {
        assert(old_items[i as int] == state.items@[i as int]@);
        if str_eq(state.items[i].stem.as_str(), stem) {
            let item = &state.items[i];
            let new_item = ImportItem {
                stem: item.stem.clone(),
                sidecar_path: item.sidecar_path.clone(),
                image_path: item.image_path.clone(),
                status,
                error,
                image_id: if image_id.is_some() {
                    image_id
                } else {
                    item.image_id
                },
            };
            state.items.set(i, new_item);
            proof {
                let k = first_with_stem(old_items, stem@);
                assert(old_items[i as int].stem == stem@);
                let c = k->0;
                assert(c == i as int) by {
                    if c < i {
                    } else if c > i {
                    }
                }
                assert(item_views(state.items@) =~= old_items.update(
                    i as int,
                    updated_item(old_items[i as int], status, opt_view(error), image_id),
                ));
            }
            return;
        }
        i = i + 1;
    }
    assert(first_with_stem(old_items, stem@) is None);
}

/// An item as a resumed batch sees it: a failed item is pending again,
/// with its error cleared; any other item is unchanged.
pub open spec fn resumed_item(item: ImportItemView) -> ImportItemView {
    if item.status == ImportStatus::Failed {
        ImportItemView { status: ImportStatus::Pending, error: None, ..item }
    } else {
        item
    }
}

/// Failed items get another chance; pending items run for the first time.
pub fn reset_failed(state: &mut ImportsState)
    ensures
        item_views(final(state).items@) == resumed_items(item_views(old(state).items@)),
{
    let ghost old_items = item_views(state.items@);
    let mut i: usize = 0;
    while i < state.items.len()
        invariant
            i <= state.items@.len(),
            state.items@.len() == old_items.len(),
            old_items == item_views(old(state).items@),
            forall|j: int| 0 <= j < i ==> #[trigger] state.items@[j]@ == resumed_item(old_items[j]),
            forall|j: int| i <= j < state.items@.len() ==> #[trigger] state.items@[j]@ == old_items[j],
        decreases state.items@.len() - i,
    {
        assert(state.items@[i as int]@ == old_items[i as int]);
        if state.items[i].status == ImportStatus::Failed {
            let item = &state.items[i];
            let new_item = ImportItem {
                stem: item.stem.clone(),
                sidecar_path: item.sidecar_path.clone(),
                image_path: item.image_path.clone(),
                status: ImportStatus::Pending,
                error: None,
                image_id: item.image_id,
            };
            state.items.set(i, new_item);
        }
        i = i + 1;
    }
    assert(item_views(state.items@) =~= old_items.map_values(|i: ImportItemView| resumed_item(i)));
}

/// The items still to run, in batch order.
pub open spec fn pending_items(items: Seq<ImportItemView>) -> Seq<ImportItemView>
    decreases items.len(),
{
    if items.len() == 0 {
        Seq::empty()
    } else if items.last().status == ImportStatus::Pending {
        pending_items(items.drop_last()).push(items.last())
    } else {
        pending_items(items.drop_last())
    }
}

/// The pending items of a batch, in order.
pub fn pending_of(state: &ImportsState) -> (res: Vec<ImportItem>)
    ensures
        item_views(res@) == pending_items(item_views(state.items@)),
{
    let ghost all = item_views(state.items@);
    let mut out: Vec<ImportItem> = Vec::new();
    let mut i: usize = 0;
    assert(all.take(0) =~= Seq::<ImportItemView>::empty());
    while i < state.items.len()
        invariant
            i <= state.items@.len(),
            all == item_views(state.items@),
            item_views(out@) == pending_items(all.take(i as int)),
        decreases state.items@.len() - i,
    {
        assert(all.take(i + 1).drop_last() =~= all.take(i as int));
        assert(all.take(i + 1).last() == state.items@[i as int]@);
        if state.items[i].status == ImportStatus::Pending {
            out.push(state.items[i].duplicate());
            assert(item_views(out@) =~= pending_items(all.take(i + 1)));
        }
        i = i + 1;
    }
    assert(all.take(all.len() as int) =~= all);
    out
}

} // verus!

verus! {

/// What a status update writes can be read back: the first item with the
/// stem carries the new status and error (and the new image id when one was
/// given, else its old one); every other item is as it was.
pub proof fn lemma_update_reads_back(
    before: Seq<ImportItemView>,
    after: Seq<ImportItemView>,
    stem: Seq<char>,
    status: ImportStatus,
    error: Option<Seq<char>>,
    image_id: Option<i64>,
    k: int,
)
    requires
        first_with_stem(before, stem) == Some(k),
        after == before.update(k, updated_item(before[k], status, error, image_id)),
    ensures
        0 <= k < after.len(),
        after[k].stem == stem,
        after[k].status == status,
        after[k].error == error,
        after[k].image_id == (if image_id is Some {
            image_id
        } else {
            before[k].image_id
        }),
        after[k].sidecar_path == before[k].sidecar_path,
        after[k].image_path == before[k].image_path,
        forall|j: int| 0 <= j < before.len() && j != k ==> after[j] == before[j],
        after.len() == before.len(),
{
    let w = choose|i: int| 0 <= i < before.len() && (#[trigger] before[i]).stem == stem;
    lemma_least_stem(before, stem, w);
}

proof fn lemma_least_stem(items: Seq<ImportItemView>, stem: Seq<char>, w: int)
    requires
        0 <= w < items.len(),
        items[w].stem == stem,
    ensures
        exists|i: int|
            0 <= i < items.len() && (#[trigger] items[i]).stem == stem && forall|j: int|
                0 <= j < i ==> (#[trigger] items[j]).stem != stem,
    decreases w,
{
    if exists|j: int| 0 <= j < w && (#[trigger] items[j]).stem == stem {
        let j = choose|j: int| 0 <= j < w && (#[trigger] items[j]).stem == stem;
        lemma_least_stem(items, stem, j);
    } else {
        assert(forall|j: int| 0 <= j < w ==> (#[trigger] items[j]).stem != stem);
    }
}

/// The batch as a resume leaves it.
pub open spec fn resumed_items(items: Seq<ImportItemView>) -> Seq<ImportItemView> {
    items.map_values(|x: ImportItemView| resumed_item(x))
}

/// After a resume no item is failed: failed items are pending with no
/// error, and committed and pending items are untouched.
pub proof fn lemma_resume_clears_failures(items: Seq<ImportItemView>)
    ensures
        resumed_items(items).len() == items.len(),
        forall|i: int|
            0 <= i < items.len() ==> (#[trigger] resumed_items(items)[i]).status
                != ImportStatus::Failed,
        forall|i: int|
            0 <= i < items.len() && items[i].status != ImportStatus::Failed ==> #[trigger] resumed_items(
                items,
            )[i] == items[i],
        forall|i: int|
            0 <= i < items.len() && items[i].status == ImportStatus::Failed ==> (#[trigger] resumed_items(
                items,
            )[i]).error is None,
{
}

/// The items that run are exactly the batch's pending items, in batch order.
pub proof fn lemma_pending_are_pending(items: Seq<ImportItemView>)
    ensures
        pending_items(items) == items.filter(|x: ImportItemView| x.status == ImportStatus::Pending),
    decreases items.len(),
{
    reveal(Seq::filter);
    if items.len() > 0 {
        lemma_pending_are_pending(items.drop_last());
    }
}

} // verus!
