//! The rewards that a frame shows: one part for the name of each.

use crate::frame::{Frame, Raster};
use crate::layout::{
    band_height, band_left, band_top, band_width, label_band, label_gap, slot_gap, Band, MAX_SLOTS,
};
use crate::normalize::{normalize_string, normalized};
use crate::ocr::{ask_recogniser, is_reading, outcome_text, text_of, OcrInput, OcrOutcome};
use crate::segment::{
    is_name_at, is_segmentation, lemma_segmentation_ordered, lemma_segmentation_unique, segment,
    stretches,
};
use crate::theme::{detect_theme, is_detected, lemma_detected_unique, Theme};
use vstd::prelude::*;

verus! {

/// One reward of the screen: the picture of its name, where that picture was
/// cut from the frame, and the text read from it.
pub struct RewardPart {
    /// The picture of the name.
    pub image: Frame,
    /// Column and row of the frame at which the picture begins.
    pub position: (u32, u32),
    /// The text as the recogniser gave it; empty until then.
    pub text: String,
    /// The text in canonical form.
    pub normalized: String,
}

/// Whether some pixel of column `x` in the rows from `top` has the colour in
/// which the theme draws names.
pub open spec fn column_inked(picture: Raster, theme: Theme, x: int, top: int, height: nat) -> bool {
    exists|y: int| top <= y < top + height && theme.inks(#[trigger] picture.at(x, y))
}

/// For each column of the band of names, whether it is inked.
pub open spec fn ink_profile(picture: Raster, theme: Theme) -> Seq<bool> {
    Seq::new(
        band_width(picture.width, picture.height),
        |i: int|
            column_inked(
                picture,
                theme,
                band_left(picture.width, picture.height) + i,
                band_top(picture.width, picture.height) as int,
                band_height(picture.width, picture.height),
            ),
    )
}

impl RewardPart {
    /// The columns of the band that the part takes, counted from the first
    /// column of the band, which is column `left` of the frame.
    pub open spec fn stretch(self, left: int) -> (int, int) {
        (self.position.0 - left, self.position.0 - left + self.image@.width)
    }

    /// The part is cut from the band of names of the picture, at its own
    /// position and over the full height of the band.
    pub open spec fn is_cut_from(self, picture: Raster) -> bool {
        &&& self.image.wf()
        &&& self.position.1 == band_top(picture.width, picture.height)
        &&& self.image@ == picture.crop(
            self.position.0 as int,
            self.position.1 as int,
            self.image@.width,
            band_height(picture.width, picture.height),
        )
    }

    /// No text is read for the part yet.
    pub open spec fn is_unread(self) -> bool {
        self.text@ == Seq::<char>::empty() && self.normalized@ == Seq::<char>::empty()
    }

    /// The text of the part is what the recogniser answered when it was handed
    /// the picture of the part, or nothing where it failed. A picture that the
    /// recogniser cannot be handed has no text.
    pub open spec fn is_read_by<F: Fn(&OcrInput) -> OcrOutcome>(self, recognise: F) -> bool {
        is_reading(recognise, self.image@, self.text@)
    }

    /// The other part shows the same picture at the same place.
    pub open spec fn same_cut(self, other: RewardPart) -> bool {
        self.image == other.image && self.position == other.position
    }
}

/// The texts of the parts, in order.
pub open spec fn texts_of(parts: Seq<RewardPart>) -> Seq<Seq<char>> {
    Seq::new(parts.len(), |k: int| parts[k].text@)
}

/// Taking down the texts of two different rewards gives the same whichever is
/// taken down first.
pub proof fn lemma_recording_commutes(
    texts: Seq<Seq<char>>,
    i: int,
    first: Seq<char>,
    j: int,
    second: Seq<char>,
)
    requires
        0 <= i < texts.len(),
        0 <= j < texts.len(),
        i != j,
    ensures
        texts.update(i, first).update(j, second) == texts.update(j, second).update(i, first),
{
}

/// The columns that the parts take in the band that begins at column `left`.
pub open spec fn stretches_of(parts: Seq<RewardPart>, left: int) -> Seq<(int, int)> {
    Seq::new(parts.len(), |k: int| parts[k].stretch(left))
}

/// The parts are the names that the picture shows in the given theme: they
/// take the stretches of inked columns of the band of names, from left to
/// right and no more than the largest number of rewards, and each is cut from
/// the picture there.
pub open spec fn is_extraction(picture: Raster, theme: Theme, parts: Seq<RewardPart>) -> bool {
    &&& is_segmentation(
        ink_profile(picture, theme),
        slot_gap(picture.width, picture.height),
        MAX_SLOTS as nat,
        stretches_of(parts, band_left(picture.width, picture.height) as int),
    )
    &&& forall|k: int| 0 <= k < parts.len() ==> (#[trigger] parts[k]).is_cut_from(picture)
}

/// The parts stand in the order of the screen: each begins to the right of
/// the one before it.
pub open spec fn is_left_to_right(parts: Seq<RewardPart>) -> bool {
    forall|i: int, j: int|
        0 <= i < j < parts.len() ==> (#[trigger] parts[i]).position.0 < (#[trigger] parts[j]).position.0
}

/// What is cut from a picture stands from left to right.
pub proof fn lemma_extraction_ordered(picture: Raster, theme: Theme, parts: Seq<RewardPart>)
    requires
        is_extraction(picture, theme, parts),
    ensures
        is_left_to_right(parts),
{
    let left = band_left(picture.width, picture.height) as int;
    assert forall|i: int, j: int| 0 <= i < j < parts.len() implies (#[trigger] parts[i]).position.0 < (
    #[trigger] parts[j]).position.0 by {
        lemma_segmentation_ordered(
            ink_profile(picture, theme),
            slot_gap(picture.width, picture.height),
            MAX_SLOTS as nat,
            stretches_of(parts, left),
            i,
            j,
        );
    }
}

/// Two ways of cutting the same picture in the same theme give as many parts,
/// at the same places, with the same pictures.
pub proof fn lemma_extraction_unique(
    picture: Raster,
    theme: Theme,
    a: Seq<RewardPart>,
    b: Seq<RewardPart>,
)
    requires
        is_extraction(picture, theme, a),
        is_extraction(picture, theme, b),
    ensures
        a.len() == b.len(),
        forall|k: int|
            0 <= k < a.len() ==> (#[trigger] a[k]).position == b[k].position && a[k].image@
                == b[k].image@,
{
    let left = band_left(picture.width, picture.height) as int;
    lemma_segmentation_unique(
        ink_profile(picture, theme),
        slot_gap(picture.width, picture.height),
        MAX_SLOTS as nat,
        stretches_of(a, left),
        stretches_of(b, left),
    );
    assert forall|k: int| 0 <= k < a.len() implies (#[trigger] a[k]).position == b[k].position
        && a[k].image@ == b[k].image@ by {
        assert(stretches_of(b, left)[k] == b[k].stretch(left));
    }
}

/// What is read from a picture is settled by the picture: two readings of it
/// find the same theme and the same parts.
pub proof fn lemma_reading_settled(
    picture: Raster,
    first_theme: Theme,
    first: Seq<RewardPart>,
    second_theme: Theme,
    second: Seq<RewardPart>,
)
    requires
        is_detected(picture, first_theme),
        is_detected(picture, second_theme),
        is_extraction(picture, first_theme, first),
        is_extraction(picture, second_theme, second),
    ensures
        first_theme == second_theme,
        first.len() == second.len(),
        forall|k: int| 0 <= k < first.len() ==> (#[trigger] first[k]).position == second[k].position,
        forall|k: int| 0 <= k < first.len() ==> (#[trigger] first[k]).image@ == second[k].image@,
{
    lemma_detected_unique(picture, first_theme, second_theme);
    lemma_extraction_unique(picture, first_theme, first, second);
}

/// Finds for each column of the band whether it is inked.
fn profile(frame: &Frame, theme: Theme, band: Band) -> (ink: Vec<bool>)
    requires
        frame.wf(),
        band.left == band_left(frame@.width, frame@.height),
        band.top == band_top(frame@.width, frame@.height),
        band.width == band_width(frame@.width, frame@.height),
        band.height == band_height(frame@.width, frame@.height),
        band.left + band.width <= frame@.width,
        band.top + band.height <= frame@.height,
    ensures
        ink@ == ink_profile(frame@, theme),
{
    let ghost picture = frame@;
    proof {
        frame.lemma_view_wf();
    }
    let mut ink: Vec<bool> = Vec::new();
    let mut i: u32 = 0;
    while i < band.width
        invariant
            frame.wf(),
            picture == frame@,
            picture.width <= u32::MAX,
            picture.height <= u32::MAX,
            band.left + band.width <= picture.width,
            band.top + band.height <= picture.height,
            i <= band.width,
            ink.len() == i,
            forall|k: int|
                0 <= k < i ==> #[trigger] ink[k] == column_inked(
                    picture,
                    theme,
                    band.left + k,
                    band.top as int,
                    band.height as nat,
                ),
        decreases band.width - i,
    {
        let mut inked: bool = false;
        let mut j: u32 = 0;
        while j < band.height && !inked
            invariant
                frame.wf(),
                picture == frame@,
                picture.width <= u32::MAX,
                picture.height <= u32::MAX,
                band.left + band.width <= picture.width,
                band.top + band.height <= picture.height,
                i < band.width,
                j <= band.height,
                inked ==> column_inked(
                    picture,
                    theme,
                    band.left + i,
                    band.top as int,
                    band.height as nat,
                ),
                !inked ==> forall|y: int|
                    band.top <= y < band.top + j ==> !theme.inks(
                        #[trigger] picture.at(band.left + i, y),
                    ),
            decreases band.height - j + if inked { 0int } else { 1int },
        {
            if theme.is_ink(frame.pixel(band.left + i, band.top + j)) {
                inked = true;
            } else {
                j += 1;
            }
        }
        ink.push(inked);
        i += 1;
    }
    ink
}

/// Cuts from the frame the parts that hold the names of the rewards: one for
/// each stretch of inked columns in the band of names, from left to right,
/// and no more than the largest number of rewards. A frame that shows no name
/// gives no part.
pub fn extract_parts(frame: &Frame, theme: Theme) -> (parts: Vec<RewardPart>)
    requires
        frame.wf(),
    ensures
        is_extraction(frame@, theme, parts@),
        is_left_to_right(parts@),
        parts.len() <= MAX_SLOTS,
        forall|k: int| 0 <= k < parts.len() ==> (#[trigger] parts[k]).is_unread(),
{
    let ghost picture = frame@;
    proof {
        frame.lemma_view_wf();
    }
    let band = label_band(frame.width(), frame.height());
    let gap = label_gap(frame.width(), frame.height());
    let ink = profile(frame, theme, band);
    let spans = segment(&ink, gap as usize, MAX_SLOTS);
    let ghost left = band.left as int;
    let ghost target = stretches(spans@);
    let mut parts: Vec<RewardPart> = Vec::new();
    let mut k: usize = 0;
    while k < spans.len()
        invariant
            frame.wf(),
            picture == frame@,
            left == band.left,
            target == stretches(spans@),
            ink@.len() == band.width,
            band.top == band_top(picture.width, picture.height),
            band.height == band_height(picture.width, picture.height),
            band.left + band.width <= picture.width <= u32::MAX,
            band.top + band.height <= picture.height,
            is_segmentation(ink@, gap as nat, MAX_SLOTS as nat, target),
            k <= spans.len(),
            parts.len() == k,
            forall|t: int| 0 <= t < k ==> (#[trigger] parts[t]).stretch(left) == target[t],
            forall|t: int| 0 <= t < k ==> (#[trigger] parts[t]).is_cut_from(picture),
            forall|t: int| 0 <= t < k ==> (#[trigger] parts[t]).is_unread(),
        decreases spans.len() - k,
    {
        let span = spans[k];
        assert(is_name_at(ink@, gap as nat, target, k as int));
        let x: u32 = band.left + (span.start as u32);
        let width: u32 = (span.end - span.start) as u32;
        let image = frame.crop(x, band.top, width, band.height);
        parts.push(
            RewardPart {
                image,
                position: (x, band.top),
                text: String::new(),
                normalized: String::new(),
            },
        );
        k += 1;
    }
    proof {
        assert(stretches_of(parts@, left) =~= target);
        lemma_extraction_ordered(picture, theme, parts@);
    }
    parts
}

/// The rewards of one frame, in the order of the screen.
pub struct RewardScreenResult {
    theme: Theme,
    parts: Vec<RewardPart>,
}

impl View for RewardScreenResult {
    type V = Seq<RewardPart>;

    closed spec fn view(&self) -> Seq<RewardPart> {
        self.parts@
    }
}

impl RewardScreenResult {
    /// The parts stand from left to right, their pictures are well formed, and
    /// each holds beside its text the canonical form of that text.
    pub closed spec fn wf(&self) -> bool {
        &&& is_left_to_right(self.parts@)
        &&& forall|k: int| 0 <= k < self.parts.len() ==> (#[trigger] self.parts[k]).image.wf()
        &&& forall|k: int|
            0 <= k < self.parts.len() ==> (#[trigger] self.parts[k]).normalized@ == normalized(
                self.parts[k].text@,
            )
    }

    /// The theme in which the frame was read.
    pub closed spec fn theme(&self) -> Theme {
        self.theme
    }

    /// What well-formed rewards promise: their order and their canonical
    /// texts.
    pub proof fn lemma_wf(&self)
        requires
            self.wf(),
        ensures
            is_left_to_right(self@),
            forall|k: int| 0 <= k < self@.len() ==> (#[trigger] self@[k]).image.wf(),
            forall|k: int|
                0 <= k < self@.len() ==> (#[trigger] self@[k]).normalized@ == normalized(
                    self@[k].text@,
                ),
    {
    }

    /// Reads the rewards from a frame: detects the theme, unless the caller
    /// knows it, and cuts out the parts. No text is read yet.
    pub fn read(frame: &Frame, theme: Option<Theme>) -> (screen: RewardScreenResult)
        requires
            frame.wf(),
        ensures
            screen.wf(),
            match theme {
                Some(known) => screen.theme() == known,
                None => is_detected(frame@, screen.theme()),
            },
            is_extraction(frame@, screen.theme(), screen@),
            forall|k: int| 0 <= k < screen@.len() ==> (#[trigger] screen@[k]).is_unread(),
    {
        let theme = match theme {
            Some(known) => known,
            None => detect_theme(frame),
        };
        let parts = extract_parts(frame, theme);
        RewardScreenResult { theme, parts }
    }

    /// The theme in which the frame was read.
    pub fn detected_theme(&self) -> (theme: Theme)
        ensures
            theme == self.theme(),
    {
        self.theme
    }

    /// Number of rewards.
    pub fn len(&self) -> (n: usize)
        ensures
            n == self@.len(),
    {
        self.parts.len()
    }

    /// The rewards, from left to right.
    pub fn parts(&self) -> (parts: &Vec<RewardPart>)
        ensures
            parts@ == self@,
    {
        &self.parts
    }

    /// Takes down what the recogniser gave for the reward at position `slot`:
    /// its text, or no text where the recogniser failed, and the canonical
    /// form of it. Rewards may be taken down in any order. Tells whether there
    /// is a reward at that position; if there is none, nothing changes.
    pub fn record_text(&mut self, slot: usize, outcome: OcrOutcome) -> (known: bool)
        requires
            old(self).wf(),
        ensures
            final(self).wf(),
            final(self).theme() == old(self).theme(),
            known == (slot < old(self)@.len()),
            final(self)@.len() == old(self)@.len(),
            forall|k: int|
                0 <= k < old(self)@.len() && k != slot ==> #[trigger] final(self)@[k] == old(
                    self,
                )@[k],
            known ==> {
                &&& final(self)@[slot as int].same_cut(old(self)@[slot as int])
                &&& final(self)@[slot as int].text@ == outcome_text(outcome)
                &&& final(self)@[slot as int].normalized@ == normalized(outcome_text(outcome))
                &&& texts_of(final(self)@) == texts_of(old(self)@).update(
                    slot as int,
                    outcome_text(outcome),
                )
            },
    {
        if slot >= self.parts.len() {
            return false;
        }
        let text = text_of(outcome);
        let canonical = normalize_string(text.as_str());
        let ghost before = self.parts@;
        self.parts[slot].text = text;
        self.parts[slot].normalized = canonical;
        proof {
            assert forall|k: int| 0 <= k < before.len() && k != slot implies self.parts@[k]
                == before[k] by {}
            assert(texts_of(self.parts@) =~= texts_of(before).update(
                slot as int,
                outcome_text(outcome),
            ));
        }
        true
    }

    /// Has the text of every reward read, from left to right: hands the
    /// picture of each to the recogniser and takes down what it answers. A
    /// reward whose picture the recogniser cannot be handed, or for which it
    /// fails, has no text; the others are read all the same.
    pub fn read_texts<F: Fn(&OcrInput) -> OcrOutcome>(&mut self, recognise: F)
        requires
            old(self).wf(),
            forall|input: OcrInput| #[trigger] call_requires(recognise, (&input,)),
        ensures
            final(self).wf(),
            final(self).theme() == old(self).theme(),
            final(self)@.len() == old(self)@.len(),
            forall|k: int|
                0 <= k < old(self)@.len() ==> (#[trigger] final(self)@[k]).same_cut(old(self)@[k]),
            forall|k: int|
                0 <= k < old(self)@.len() ==> (#[trigger] final(self)@[k]).is_read_by(recognise),
    {
        let mut slot: usize = 0;
        while slot < self.parts.len()
            invariant
                self.wf(),
                self.theme() == old(self).theme(),
                self@.len() == old(self)@.len(),
                slot <= self@.len(),
                forall|input: OcrInput| #[trigger] call_requires(recognise, (&input,)),
                forall|k: int|
                    0 <= k < old(self)@.len() ==> (#[trigger] self@[k]).same_cut(old(self)@[k]),
                forall|k: int| 0 <= k < slot ==> (#[trigger] self@[k]).is_read_by(recognise),
            decreases self@.len() - slot,
        {
            let outcome = ask_recogniser(&self.parts[slot].image, &recognise);
            self.record_text(slot, outcome);
            slot += 1;
        }
    }
}

/// Parts that show the same pictures at the same places as the parts cut from
/// a picture are themselves the parts cut from it, whatever their texts are.
pub proof fn lemma_extraction_kept(
    picture: Raster,
    theme: Theme,
    before: Seq<RewardPart>,
    after: Seq<RewardPart>,
)
    requires
        is_extraction(picture, theme, before),
        after.len() == before.len(),
        forall|k: int| 0 <= k < before.len() ==> (#[trigger] after[k]).same_cut(before[k]),
    ensures
        is_extraction(picture, theme, after),
{
    let left = band_left(picture.width, picture.height) as int;
    assert(stretches_of(after, left) =~= stretches_of(before, left));
}

} // verus!
