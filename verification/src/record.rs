//! What a worker hands back for one file: a record to persist, or the notice
//! that the file has to be moved out of the corpus.

use crate::orientation::{Dimensions, Orientation};
use vstd::prelude::*;

verus! {

/// The metadata kept for one decoded image.
#[derive(Debug, PartialEq, Eq)]
pub struct ImageRecord {
    /// Position of the file among the candidates of the run, from one.
    pub sequence_index: u64,
    /// Path under which the file was reached.
    pub source_path: String,
    /// Size of the file in bytes.
    pub byte_size: u64,
    /// Pixel dimensions of the decoded image.
    pub dimensions: Dimensions,
    /// Orientation, derived from the dimensions.
    pub orientation: Orientation,
    /// Content representation: digest or inline text.
    pub content: String,
}

/// What an [`ImageRecord`] stands for.
pub struct ImageRecordView {
    pub sequence_index: nat,
    pub source_path: Seq<char>,
    pub byte_size: nat,
    pub width: nat,
    pub height: nat,
    pub orientation: Orientation,
    pub content: Seq<char>,
}

impl ImageRecordView {
    /// A record is coherent when its orientation is the one its dimensions
    /// give.
    pub open spec fn coherent(self) -> bool {
        self.orientation == Orientation::classify(self.width as int, self.height as int)
    }

    /// Number of pixels of the image, derived from its dimensions.
    pub open spec fn pixel_count(self) -> nat {
        self.width * self.height
    }
}

impl View for ImageRecord {
    type V = ImageRecordView;

    open spec fn view(&self) -> ImageRecordView {
        ImageRecordView {
            sequence_index: self.sequence_index as nat,
            source_path: self.source_path@,
            byte_size: self.byte_size as nat,
            width: self.dimensions.width as nat,
            height: self.dimensions.height as nat,
            orientation: self.orientation,
            content: self.content@,
        }
    }
}

impl ImageRecord {
    /// Number of pixels of the image.
    pub fn pixel_count(&self) -> (count: u64)
        ensures
            count as nat == self@.pixel_count(),
    {
        self.dimensions.pixel_count()
    }
}

impl Clone for ImageRecord {
    fn clone(&self) -> (copy: Self)
        ensures
            copy@ == self@,
    {
        ImageRecord {
            sequence_index: self.sequence_index,
            source_path: self.source_path.clone(),
            byte_size: self.byte_size,
            dimensions: self.dimensions,
            orientation: self.orientation,
            content: self.content.clone(),
        }
    }
}

/// The notice that a file could not be decoded and has to be moved into the
/// quarantine directory under its own base name.
#[derive(Debug, PartialEq, Eq)]
pub struct QuarantineEvent {
    /// Path at which the file lies.
    pub source_path: String,
    /// Base name it keeps at its destination.
    pub file_name: String,
}

/// What a [`QuarantineEvent`] stands for.
pub struct QuarantineEventView {
    pub source_path: Seq<char>,
    pub file_name: Seq<char>,
}

impl View for QuarantineEvent {
    type V = QuarantineEventView;

    open spec fn view(&self) -> QuarantineEventView {
        QuarantineEventView { source_path: self.source_path@, file_name: self.file_name@ }
    }
}

impl Clone for QuarantineEvent {
    fn clone(&self) -> (copy: Self)
        ensures
            copy@ == self@,
    {
        QuarantineEvent {
            source_path: self.source_path.clone(),
            file_name: self.file_name.clone(),
        }
    }
}

/// Result of working on one candidate.
#[derive(Debug, PartialEq, Eq)]
pub enum Outcome {
    /// The file decoded; here is its record.
    Indexed(ImageRecord),
    /// The file did not decode; it has to be quarantined.
    Quarantined(QuarantineEvent),
}

/// What an [`Outcome`] stands for.
pub enum OutcomeView {
    Indexed(ImageRecordView),
    Quarantined(QuarantineEventView),
}

impl View for Outcome {
    type V = OutcomeView;

    open spec fn view(&self) -> OutcomeView {
        match self {
            Outcome::Indexed(record) => OutcomeView::Indexed(record@),
            Outcome::Quarantined(event) => OutcomeView::Quarantined(event@),
        }
    }
}

impl Clone for Outcome {
    fn clone(&self) -> (copy: Self)
        ensures
            copy@ == self@,
    {
        match self {
            Outcome::Indexed(record) => Outcome::Indexed(record.clone()),
            Outcome::Quarantined(event) => Outcome::Quarantined(event.clone()),
        }
    }
}

/// The views of a sequence of records.
pub open spec fn record_views(records: Seq<ImageRecord>) -> Seq<ImageRecordView> {
    records.map_values(|r: ImageRecord| r@)
}

/// The views of a sequence of outcomes.
pub open spec fn outcome_views(outcomes: Seq<Outcome>) -> Seq<OutcomeView> {
    outcomes.map_values(|o: Outcome| o@)
}

} // verus!
