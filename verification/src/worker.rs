//! The work done on one candidate: decode, classify, represent.
//!
//! The caller reads the file and hands over its bytes, or the fact that it
//! could not be read. A file that decodes as JPEG yields a record; any other
//! yields a quarantine notice. Nothing here touches the file system or the
//! store, and no outcome depends on any other file.

use crate::content::{represent, representable, representation, ContentStrategy};
use crate::orientation::{Dimensions, Orientation};
use crate::record::{
    ImageRecord, ImageRecordView, Outcome, OutcomeView, QuarantineEvent, QuarantineEventView,
};
use crate::traversal::{WorkUnit, WorkUnitView};
use vstd::prelude::*;

verus! {

/// Width and height of the image that the `image` crate decodes from the
/// bytes when told they are JPEG, or `None` when it reports an error.
pub uninterp spec fn jpeg_dimensions(bytes: Seq<u8>) -> Option<(u32, u32)>;

/// Calls `image::load_from_memory_with_format` with `ImageFormat::Jpeg`, then
/// `DynamicImage::width` and `DynamicImage::height` on the image. The decoder
/// is chosen by the format given, not by inspecting the bytes, and runs under
/// the crate's default limits. Nothing is claimed of the outcome but that it
/// is the one the crate gives for these bytes.
#[verifier::external_body]
fn decode_jpeg(bytes: &[u8]) -> (decoded: Option<(u32, u32)>)
    ensures
        decoded == jpeg_dimensions(bytes@),
{
    match image::load_from_memory_with_format(bytes, image::ImageFormat::Jpeg) {
        Ok(img) => Some((img.width(), img.height())),
        Err(_) => None,
    }
}

/// The notice that puts the file of a work unit into quarantine.
pub open spec fn quarantine_of(unit: WorkUnitView) -> QuarantineEventView {
    QuarantineEventView { source_path: unit.path, file_name: unit.file_name }
}

/// The record of a work unit whose file has the given bytes and decodes to
/// the given dimensions.
pub open spec fn record_of(
    unit: WorkUnitView,
    width: u32,
    height: u32,
    bytes: Seq<u8>,
    strategy: ContentStrategy,
) -> ImageRecordView {
    ImageRecordView {
        sequence_index: unit.sequence_index,
        source_path: unit.path,
        byte_size: bytes.len(),
        width: width as nat,
        height: height as nat,
        orientation: Orientation::classify(width as int, height as int),
        content: representation(strategy, bytes),
    }
}

/// The outcome for a work unit, given what decoding its bytes gave.
pub open spec fn outcome_of(
    unit: WorkUnitView,
    decoded: Option<(u32, u32)>,
    bytes: Seq<u8>,
    strategy: ContentStrategy,
) -> OutcomeView {
    match decoded {
        Some((width, height)) => OutcomeView::Indexed(
            record_of(unit, width, height, bytes, strategy),
        ),
        None => OutcomeView::Quarantined(quarantine_of(unit)),
    }
}

/// The outcome for a work unit, given what reading its file gave: the bytes,
/// or nothing when the file could not be read.
pub open spec fn outcome_of_file(
    unit: WorkUnitView,
    file: Option<Seq<u8>>,
    strategy: ContentStrategy,
) -> OutcomeView {
    match file {
        Some(bytes) => outcome_of(unit, jpeg_dimensions(bytes), bytes, strategy),
        None => OutcomeView::Quarantined(quarantine_of(unit)),
    }
}

/// Turns a work unit into the notice that quarantines its file.
pub fn quarantine(unit: WorkUnit) -> (event: QuarantineEvent)
    ensures
        event@ == quarantine_of(unit@),
{
    QuarantineEvent { source_path: unit.path, file_name: unit.file_name }
}

/// Finishes a work unit once the decoder has spoken: a record with the
/// unit's index and path, the size of the file, the orientation its
/// dimensions give and its content under the strategy, or a quarantine notice
/// when decoding failed. The content is computed only for a file that
/// decoded.
pub fn complete(
    unit: WorkUnit,
    decoded: Option<(u32, u32)>,
    bytes: &[u8],
    strategy: ContentStrategy,
) -> (outcome: Outcome)
    requires
        decoded is Some ==> representable(strategy, bytes@.len()),
    ensures
        outcome@ == outcome_of(unit@, decoded, bytes@, strategy),
        outcome is Indexed <==> decoded is Some,
        outcome matches Outcome::Indexed(record) ==> record@.coherent(),
{
    match decoded {
        Some((width, height)) => {
            let content = represent(strategy, bytes);
            Outcome::Indexed(
                ImageRecord {
                    sequence_index: unit.sequence_index,
                    source_path: unit.path,
                    byte_size: bytes.len() as u64,
                    dimensions: Dimensions { width, height },
                    orientation: Orientation::of(width, height),
                    content,
                },
            )
        },
        None => Outcome::Quarantined(quarantine(unit)),
    }
}

/// Works on one candidate. `file` holds the bytes of the file, or nothing
/// when it could not be read. A file that was read and decodes as JPEG gives
/// its record; a file that could not be read or does not decode gives a
/// quarantine notice.
pub fn process(unit: WorkUnit, file: Option<&[u8]>, strategy: ContentStrategy) -> (outcome:
    Outcome)
    requires
        file matches Some(bytes) ==> representable(strategy, bytes@.len()),
    ensures
        outcome@ == outcome_of_file(
            unit@,
            match file {
                Some(bytes) => Some(bytes@),
                None => None,
            },
            strategy,
        ),
        file is None ==> outcome is Quarantined,
{
    match file {
        Some(bytes) => {
            let decoded = decode_jpeg(bytes);
            complete(unit, decoded, bytes, strategy)
        },
        None => Outcome::Quarantined(quarantine(unit)),
    }
}

} // verus!
