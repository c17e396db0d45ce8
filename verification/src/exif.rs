//! The metadata that is written into each image, and the order of the
//! writes.
//!
//! Nothing here opens a file. [`write_job`] says what is to be written into
//! which file, and a [`WritePhase`] walks the records: it hands out one
//! [`WriteAction`] at a time and is told how the write went. An image whose
//! metadata cannot be opened is passed over; a write that fails ends the
//! phase for all records that are left.
use vstd::prelude::*;
use crate::text::texts;
use crate::types::{MemeOutput, MemeOutputView, output_views};
use crate::utf16::{to_utf16le_string, utf16le_text};

verus! {

/// The name of the plain-text description field.
pub const TAG_DESCRIPTION: &'static str = "Exif.Image.ImageDescription";

/// The name of the wide-string title field.
pub const TAG_TITLE: &'static str = "Exif.Image.XPTitle";

/// The name of the wide-string keywords field.
pub const TAG_KEYWORDS: &'static str = "Exif.Image.XPKeywords";

/// The parts in order, with `sep` between neighbours. A separator inside a
/// part is not marked in any way.
pub open spec fn joined(parts: Seq<Seq<char>>, sep: char) -> Seq<char>
    decreases parts.len(),
{
    if parts.len() == 0 {
        Seq::empty()
    } else if parts.len() == 1 {
        parts[0]
    } else {
        joined(parts.drop_last(), sep) + seq![sep] + parts.last()
    }
}

/// The description of a record: its title, a space, and its description.
pub open spec fn caption(meme: MemeOutputView) -> Seq<char> {
    meme.title + seq![' '] + meme.description
}

/// The path of an image in the image directory.
pub open spec fn image_path(image_dir: Seq<char>, image: Seq<char>) -> Seq<char> {
    image_dir + seq!['/'] + image
}

/// One metadata field: the name of the tag and the value to set.
#[derive(Debug, Clone, PartialEq, Eq)]
pub struct MetadataField {
    pub tag: String,
    pub value: String,
}

/// What a [`MetadataField`] holds.
pub struct MetadataFieldView {
    pub tag: Seq<char>,
    pub value: Seq<char>,
}

impl View for MetadataField {
    type V = MetadataFieldView;

    open spec fn view(&self) -> MetadataFieldView {
        MetadataFieldView { tag: self.tag@, value: self.value@ }
    }
}

/// What is written into one image: the metadata of the file at `path` is
/// cleared, the fields are set in order, and the file is saved in place.
#[derive(Debug, Clone, PartialEq, Eq)]
pub struct WriteJob {
    pub path: String,
    pub fields: Vec<MetadataField>,
}

/// What a [`WriteJob`] holds.
pub struct WriteJobView {
    pub path: Seq<char>,
    pub fields: Seq<MetadataFieldView>,
}

impl View for WriteJob {
    type V = WriteJobView;

    open spec fn view(&self) -> WriteJobView {
        WriteJobView {
            path: self.path@,
            fields: self.fields@.map_values(|f: MetadataField| f@),
        }
    }
}

/// The write that a record asks for: the description as plain text, the
/// same description as a wide string for the title, and the tags, joined by
/// `;`, as a wide string for the keywords.
pub open spec fn job_for(meme: MemeOutputView, image_dir: Seq<char>) -> WriteJobView {
    WriteJobView {
        path: image_path(image_dir, meme.image),
        fields: seq![
            MetadataFieldView { tag: TAG_DESCRIPTION@, value: caption(meme) },
            MetadataFieldView { tag: TAG_TITLE@, value: utf16le_text(caption(meme)) },
            MetadataFieldView {
                tag: TAG_KEYWORDS@,
                value: utf16le_text(joined(meme.tags, ';')),
            },
        ],
    }
}

/// The strings in order, with `sep` between neighbours.
pub fn join(parts: &Vec<String>, sep: char) -> (text: String)
    ensures
        text@ == joined(texts(parts@), sep),
{
    let mut text = String::new();
    let mut i: usize = 0;
    while i < parts.len()
        invariant
            i <= parts.len(),
            text@ == joined(texts(parts@).take(i as int), sep),
        decreases parts.len() - i,
    {
        assert(texts(parts@).take(i + 1).drop_last() == texts(parts@).take(i as int));
        if i > 0 {
            text.push(sep);
        }
        text.append(parts[i].as_str());
        i += 1;
    }
    assert(texts(parts@).take(parts@.len() as int) == texts(parts@));
    text
}

/// A field with the given tag and value.
fn field(tag: &str, value: String) -> (f: MetadataField)
    ensures
        f@ == (MetadataFieldView { tag: tag@, value: value@ }),
{
    MetadataField { tag: String::from_str(tag), value }
}

/// The write that a record asks for, into the image directory `image_dir`.
pub fn write_job(meme: &MemeOutput, image_dir: &str) -> (job: WriteJob)
    ensures
        job@ == job_for(meme@, image_dir@),
{
    let mut path = String::from_str(image_dir);
    path.push('/');
    path.append(meme.image.as_str());
    let mut description = meme.title.clone();
    description.push(' ');
    description.append(meme.description.as_str());
    let title = to_utf16le_string(description.as_str());
    let keywords = to_utf16le_string(join(&meme.tags, ';').as_str());
    let mut fields: Vec<MetadataField> = Vec::new();
    fields.push(field(TAG_DESCRIPTION, description));
    fields.push(field(TAG_TITLE, title));
    fields.push(field(TAG_KEYWORDS, keywords));
    let job = WriteJob { path, fields };
    assert(description@ == caption(meme@));
    assert(job@.path == image_path(image_dir@, meme@.image));
    assert(job@.fields == job_for(meme@, image_dir@).fields);
    job
}

/// How the write of one image went.
#[derive(Debug, Clone, PartialEq, Eq)]
pub enum WriteOutcome {
    /// The metadata of the image could not be opened; nothing was written.
    Skipped,
    /// The metadata was cleared, the fields were set and the file was saved.
    Written,
    /// A field could not be set, or the file could not be saved.
    Failed { reason: String },
}

/// What a [`WriteOutcome`] holds.
pub enum WriteOutcomeView {
    Skipped,
    Written,
    Failed { reason: Seq<char> },
}

impl View for WriteOutcome {
    type V = WriteOutcomeView;

    open spec fn view(&self) -> WriteOutcomeView {
        match self {
            WriteOutcome::Skipped => WriteOutcomeView::Skipped,
            WriteOutcome::Written => WriteOutcomeView::Written,
            WriteOutcome::Failed { reason } => WriteOutcomeView::Failed { reason: reason@ },
        }
    }
}

/// What the write phase asks for next.
#[derive(Debug, Clone, PartialEq, Eq)]
pub enum WriteAction {
    /// Carry out this write and report how it went.
    Write { job: WriteJob },
    /// Every record has been dealt with.
    Finish,
    /// A write failed; the records that are left are not written.
    Abort { reason: String },
}

/// What a [`WriteAction`] holds.
pub enum WriteActionView {
    Write { job: WriteJobView },
    Finish,
    Abort { reason: Seq<char> },
}

impl View for WriteAction {
    type V = WriteActionView;

    open spec fn view(&self) -> WriteActionView {
        match self {
            WriteAction::Write { job } => WriteActionView::Write { job: job@ },
            WriteAction::Finish => WriteActionView::Finish,
            WriteAction::Abort { reason } => WriteActionView::Abort { reason: reason@ },
        }
    }
}

/// How far the write phase has come: the index of the record to write next,
/// the number of images written so far, and the failure that ended the
/// phase, if one did.
pub struct WritePhaseView {
    pub next: nat,
    pub written: nat,
    pub failure: Option<Seq<char>>,
}

/// The write phase before its first write.
pub open spec fn initial_phase() -> WritePhaseView {
    WritePhaseView { next: 0, written: 0, failure: None }
}

/// What a phase asks for next: nothing more after a failure, the write of
/// the next record while one is left, and the end after the last.
pub open spec fn action_of(
    phase: WritePhaseView,
    memes: Seq<MemeOutputView>,
    image_dir: Seq<char>,
) -> WriteActionView {
    match phase.failure {
        Some(reason) => WriteActionView::Abort { reason },
        None => if phase.next < memes.len() {
            WriteActionView::Write { job: job_for(memes[phase.next as int], image_dir) }
        } else {
            WriteActionView::Finish
        },
    }
}

/// The phase after the outcome of the write that it asked for. A phase that
/// asked for no write, because it failed or because no record is left of
/// the `total`, stays as it is.
pub open spec fn advanced(
    phase: WritePhaseView,
    total: nat,
    outcome: WriteOutcomeView,
) -> WritePhaseView {
    if phase.failure is Some || phase.next >= total {
        phase
    } else {
        match outcome {
            WriteOutcomeView::Skipped => WritePhaseView {
                next: phase.next + 1,
                written: phase.written,
                failure: None,
            },
            WriteOutcomeView::Written => WritePhaseView {
                next: phase.next + 1,
                written: phase.written + 1,
                failure: None,
            },
            WriteOutcomeView::Failed { reason } => WritePhaseView {
                next: phase.next,
                written: phase.written,
                failure: Some(reason),
            },
        }
    }
}

/// The walk over the records to write: which one is next, how many images
/// were written, and whether a write has failed.
#[derive(Debug)]
pub struct WritePhase {
    next: usize,
    written: usize,
    failure: Option<String>,
}

impl View for WritePhase {
    type V = WritePhaseView;

    closed spec fn view(&self) -> WritePhaseView {
        WritePhaseView {
            next: self.next as nat,
            written: self.written as nat,
            failure: match self.failure {
                Some(reason) => Some(reason@),
                None => None,
            },
        }
    }
}

impl WritePhase {
    /// No more images were written than records were dealt with.
    #[verifier::type_invariant]
    spec fn counts_in_step(self) -> bool {
        self.written <= self.next
    }

    /// The phase before its first write.
    pub fn new() -> (phase: WritePhase)
        ensures
            phase@ == initial_phase(),
    {
        WritePhase { next: 0, written: 0, failure: None }
    }

    /// The index of the record that is written next.
    pub fn next_index(&self) -> (next: usize)
        ensures
            next == self@.next,
    {
        self.next
    }

    /// The number of images written so far.
    pub fn written(&self) -> (written: usize)
        ensures
            written == self@.written,
    {
        self.written
    }

    /// What is to be done next for these records, whose images lie in
    /// `image_dir`.
    pub fn action(&self, memes: &Vec<MemeOutput>, image_dir: &str) -> (action: WriteAction)
        ensures
            action@ == action_of(self@, output_views(memes@), image_dir@),
    {
        match &self.failure {
            Some(reason) => WriteAction::Abort { reason: reason.clone() },
            None => if self.next < memes.len() {
                WriteAction::Write { job: write_job(&memes[self.next], image_dir) }
            } else {
                WriteAction::Finish
            },
        }
    }

    /// Takes note of how the write went that the phase asked for, for these
    /// records.
    pub fn advance(self, memes: &Vec<MemeOutput>, outcome: WriteOutcome) -> (phase: WritePhase)
        ensures
            phase@ == advanced(self@, memes@.len(), outcome@),
    {
        proof {
            use_type_invariant(&self);
        }
        if self.failure.is_some() || self.next >= memes.len() {
            return self;
        }
        match outcome {
            WriteOutcome::Skipped => WritePhase {
                next: self.next + 1,
                written: self.written,
                failure: None,
            },
            WriteOutcome::Written => WritePhase {
                next: self.next + 1,
                written: self.written + 1,
                failure: None,
            },
            WriteOutcome::Failed { reason } => WritePhase {
                next: self.next,
                written: self.written,
                failure: Some(reason),
            },
        }
    }
}

/// The phase over `total` records after the outcomes told to it, in order.
pub open spec fn phase_after(outcomes: Seq<WriteOutcomeView>, total: nat) -> WritePhaseView
    decreases outcomes.len(),
{
    if outcomes.len() == 0 {
        initial_phase()
    } else {
        advanced(phase_after(outcomes.drop_last(), total), total, outcomes.last())
    }
}

/// The number of outcomes that are `Written`.
pub open spec fn written_count(outcomes: Seq<WriteOutcomeView>) -> nat
    decreases outcomes.len(),
{
    if outcomes.len() == 0 {
        0
    } else {
        written_count(outcomes.drop_last()) + if outcomes.last() is Written {
            1nat
        } else {
            0nat
        }
    }
}

/// While no write fails, the records are written in input order: after `k`
/// outcomes the phase asks for the write of record `k`, and it has counted
/// the images written. An image that was passed over holds nothing up.
pub proof fn lemma_writes_follow_input_order(
    outcomes: Seq<WriteOutcomeView>,
    memes: Seq<MemeOutputView>,
    image_dir: Seq<char>,
)
    requires
        outcomes.len() <= memes.len(),
        forall|i: int| 0 <= i < outcomes.len() ==> !(outcomes[i] is Failed),
    ensures
        phase_after(outcomes, memes.len()) == (WritePhaseView {
            next: outcomes.len(),
            written: written_count(outcomes),
            failure: None,
        }),
        outcomes.len() < memes.len() ==> action_of(
            phase_after(outcomes, memes.len()),
            memes,
            image_dir,
        ) == (WriteActionView::Write { job: job_for(memes[outcomes.len() as int], image_dir) }),
        outcomes.len() == memes.len() ==> action_of(
            phase_after(outcomes, memes.len()),
            memes,
            image_dir,
        ) == WriteActionView::Finish,
    decreases outcomes.len(),
{
    if outcomes.len() > 0 {
        lemma_writes_follow_input_order(outcomes.drop_last(), memes, image_dir);
    }
}

/// A write that fails ends the phase: whatever is told to it afterwards,
/// it asks for no further write and gives the reason of that failure.
pub proof fn lemma_failure_ends_phase(
    outcomes: Seq<WriteOutcomeView>,
    memes: Seq<MemeOutputView>,
    image_dir: Seq<char>,
    k: int,
)
    requires
        0 <= k < outcomes.len(),
        k < memes.len(),
        outcomes[k] is Failed,
        forall|i: int| 0 <= i < k ==> !(outcomes[i] is Failed),
    ensures
        phase_after(outcomes, memes.len()).next == k,
        action_of(phase_after(outcomes, memes.len()), memes, image_dir) == (
        WriteActionView::Abort { reason: outcomes[k]->reason }),
    decreases outcomes.len(),
{
    if outcomes.len() == k + 1 {
        lemma_writes_follow_input_order(outcomes.drop_last(), memes, image_dir);
    } else {
        lemma_failure_ends_phase(outcomes.drop_last(), memes, image_dir, k);
    }
}

/// What is written into an image is settled by the record and the image
/// directory alone: two records that hold the same ask for the same write,
/// so that writing an image again, after its metadata was cleared, sets the
/// same fields to the same values.
pub proof fn lemma_rewrite_is_identical(
    first: MemeOutputView,
    second: MemeOutputView,
    image_dir: Seq<char>,
)
    requires
        first.title == second.title,
        first.description == second.description,
        first.tags == second.tags,
        first.image == second.image,
    ensures
        job_for(first, image_dir) == job_for(second, image_dir),
{
}

} // verus!
