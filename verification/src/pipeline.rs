//! One detection cycle, from a captured frame to the rewards with their items
//! and the one to pick.
//!
//! A cycle needs a frame and a catalog; without either it ends at once. What
//! goes wrong for one reward, a recogniser that fails or a text that matches
//! nothing, leaves that reward unknown and the others as they are.

use crate::catalog::{Catalog, CatalogItem, ItemCategory};
use crate::frame::Frame;
use crate::normalize::normalized;
use crate::ocr::{outcome_text, OcrInput, OcrOutcome};
use crate::ranking::{best_pick, slot_value, value_of};
use crate::screen::{is_extraction, lemma_extraction_kept, RewardPart, RewardScreenResult};
use crate::theme::{is_detected, Theme};
use vstd::prelude::*;
use vstd::string::StringExecFns;

verus! {

/// Why a cycle ended without a result.
#[derive(Clone, Copy, Debug, PartialEq, Eq, Structural)]
pub enum CycleError {
    /// No frame could be captured.
    CaptureFailure,
    /// The catalog is not loaded.
    CatalogUnavailable,
}

/// A reward with the item that its text resolved to and the worth of it.
pub struct ResolvedSlot<'a> {
    /// The reward as it was read from the frame.
    pub part: &'a RewardPart,
    /// The item, or none where the text matched nothing well enough.
    pub item: Option<&'a CatalogItem>,
    /// Worth of the item; nothing for an unknown reward.
    pub value: u64,
}

/// The result of a cycle: the rewards from left to right, and the position of
/// the one that is worth the most.
pub struct Detection<'a> {
    pub slots: Vec<ResolvedSlot<'a>>,
    pub best: Option<usize>,
}

/// The slot holds the part, the item that the canonical text of the part
/// resolves to in the catalog, and the worth of that item.
pub open spec fn is_resolved(
    slot: ResolvedSlot,
    part: RewardPart,
    catalog: Catalog,
    hint: Option<ItemCategory>,
) -> bool {
    &&& *slot.part == part
    &&& match catalog.resolution(part.normalized@, hint) {
        Some(i) => 0 <= i < catalog@.len() && slot.item == Some(&catalog@[i]),
        None => slot.item is None,
    }
    &&& slot.value == slot_value(slot.item)
}

/// The slot at position `i` is the one to pick: no slot is worth more, and
/// those to the left of it are worth less.
pub open spec fn is_best_slot(slots: Seq<ResolvedSlot>, i: int) -> bool {
    &&& 0 <= i < slots.len()
    &&& forall|j: int| 0 <= j < slots.len() ==> slot_value((#[trigger] slots[j]).item) <= slot_value(slots[i].item)
    &&& forall|j: int| 0 <= j < i ==> slot_value((#[trigger] slots[j]).item) < slot_value(slots[i].item)
}

/// A reward for which the recogniser failed, or gave no text, is unknown in
/// every usable catalog.
pub proof fn lemma_failed_slot_unknown(
    catalog: Catalog,
    hint: Option<ItemCategory>,
    outcome: OcrOutcome,
)
    requires
        catalog.wf(),
        outcome_text(outcome).len() == 0,
    ensures
        catalog.resolution(normalized(outcome_text(outcome)), hint) is None,
        slot_value(None) == 0,
{
    catalog.lemma_empty_text_unresolved(hint);
}

impl<'a> ResolvedSlot<'a> {
    /// Pairs a reward with the item it resolved to, and values it.
    pub fn new(part: &'a RewardPart, item: Option<&'a CatalogItem>) -> (slot: ResolvedSlot<'a>)
        ensures
            slot.part == part,
            slot.item == item,
            slot.value == slot_value(item),
    {
        ResolvedSlot { part, item, value: value_of(item) }
    }

    /// The name to show for the reward: the drop name of its item, or a word
    /// for a reward that is unknown.
    pub fn label(&self) -> (name: String)
        ensures
            name@ == match self.item {
                Some(item) => item.drop_name@,
                None => "Unknown item"@,
            },
    {
        match self.item {
            Some(item) => item.drop_name.clone(),
            None => String::from_str("Unknown item"),
        }
    }
}

/// Picks the slot that is worth the most, the leftmost of them where several
/// are worth the same. Each slot is valued by its item, an unknown reward at
/// nothing. Where there is no slot there is no pick.
pub fn pick_best(slots: &Vec<ResolvedSlot>) -> (best: Option<usize>)
    ensures
        match best {
            Some(i) => is_best_slot(slots@, i as int),
            None => slots.len() == 0,
        },
{
    let mut values: Vec<u64> = Vec::new();
    let mut k: usize = 0;
    while k < slots.len()
        invariant
            k <= slots.len(),
            values.len() == k,
            forall|t: int| 0 <= t < k ==> #[trigger] values[t] == slot_value(slots[t].item),
        decreases slots.len() - k,
    {
        values.push(value_of(slots[k].item));
        k += 1;
    }
    let best = best_pick(&values);
    proof {
        if let Some(i) = best {
            assert forall|j: int| 0 <= j < slots.len() implies slot_value(
                (#[trigger] slots[j]).item,
            ) <= slot_value(slots[i as int].item) by {
                assert(values[j] <= values[i as int]);
            }
            assert forall|j: int| 0 <= j < i implies slot_value((#[trigger] slots[j]).item)
                < slot_value(slots[i as int].item) by {
                assert(values[j] < values[i as int]);
            }
        }
    }
    best
}

/// Resolves the text of every reward against the catalog, values what it
/// resolved to, and picks the reward that is worth the most, the leftmost of
/// them where several are worth the same. A screen without rewards has no
/// pick.
pub fn resolve_screen<'a>(
    screen: &'a RewardScreenResult,
    catalog: &'a Catalog,
    hint: Option<ItemCategory>,
) -> (detection: Detection<'a>)
    requires
        screen.wf(),
        catalog.wf(),
    ensures
        detection.slots.len() == screen@.len(),
        forall|k: int|
            0 <= k < screen@.len() ==> is_resolved(
                #[trigger] detection.slots[k],
                screen@[k],
                *catalog,
                hint,
            ),
        match detection.best {
            Some(i) => is_best_slot(detection.slots@, i as int),
            None => screen@.len() == 0,
        },
{
    let parts = screen.parts();
    let mut slots: Vec<ResolvedSlot<'a>> = Vec::new();
    let mut k: usize = 0;
    while k < parts.len()
        invariant
            catalog.wf(),
            parts@ == screen@,
            k <= parts.len(),
            slots.len() == k,
            forall|t: int|
                0 <= t < k ==> is_resolved(#[trigger] slots[t], screen@[t], *catalog, hint),
        decreases parts.len() - k,
    {
        let part = &parts[k];
        let item = catalog.find_item(part.normalized.as_str(), hint);
        slots.push(ResolvedSlot::new(part, item));
        k += 1;
    }
    let best = pick_best(&slots);
    Detection { slots, best }
}

/// The first half of a cycle: reads the rewards from the captured frame and
/// has their texts read by the recogniser. Ends with an error where there is
/// no frame or no catalog, before anything is read.
pub fn read_screen<F: Fn(&OcrInput) -> OcrOutcome>(
    capture: Option<&Frame>,
    catalog: Option<&Catalog>,
    theme: Option<Theme>,
    recognise: F,
) -> (r: Result<RewardScreenResult, CycleError>)
    requires
        capture matches Some(frame) ==> frame.wf(),
        forall|input: OcrInput| #[trigger] call_requires(recognise, (&input,)),
    ensures
        capture is None ==> r == Err::<RewardScreenResult, CycleError>(CycleError::CaptureFailure),
        capture is Some && catalog is None ==> r == Err::<RewardScreenResult, CycleError>(
            CycleError::CatalogUnavailable,
        ),
        capture is Some && catalog is Some ==> r is Ok,
        r matches Ok(screen) ==> {
            &&& screen.wf()
            &&& match theme {
                Some(known) => screen.theme() == known,
                None => is_detected(capture->0@, screen.theme()),
            }
            &&& is_extraction(capture->0@, screen.theme(), screen@)
            &&& forall|k: int|
                0 <= k < screen@.len() ==> (#[trigger] screen@[k]).is_read_by(recognise)
        },
{
    let frame = match capture {
        Some(frame) => frame,
        None => {
            return Err(CycleError::CaptureFailure);
        },
    };
    if catalog.is_none() {
        return Err(CycleError::CatalogUnavailable);
    }
    let mut screen = RewardScreenResult::read(frame, theme);
    let ghost cut = screen@;
    screen.read_texts(recognise);
    proof {
        lemma_extraction_kept(frame@, screen.theme(), cut, screen@);
    }
    Ok(screen)
}

} // verus!
