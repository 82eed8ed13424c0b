//! The reconciliation rules: how one remote catalog entry is classified
//! against the local store, and how a new entry becomes a record. The
//! engine decides; fetching, persisting and announcing are actions the
//! caller performs on its verdicts.

use vstd::prelude::*;
use crate::doc::{Doc, DocV};
use crate::episode::{episode_of_doc, Episode};
use crate::manifest::{parses_u64, spec_block_text, spec_block_filename, spec_get_value,
    spec_length_digits};
use crate::text::digits_val;

verus! {

/// What one catalog entry asks of the store.
#[derive(Debug, Clone, Copy, PartialEq, Eq, Structural)]
pub enum SyncAction {
    /// The local record matches; nothing is written, nothing published.
    Unchanged,
    /// The local record's download count drifts; it is set to the carried
    /// value and persisted, and nothing is published.
    Update(u64),
    /// No local record exists; the entry's manifest must be fetched.
    NeedsManifest,
}

/// Classifies one remote entry against the local record, if any: an entry
/// without a record needs its manifest; one with a record is unchanged
/// when the download counts agree, and otherwise updates the count.
pub fn classify(doc: &Doc, local: Option<&Episode>) -> (a: SyncAction)
    ensures
        match local {
            Some(l) => {
                if l@.metadata.downloads == doc@.downloads {
                    a == SyncAction::Unchanged
                } else {
                    a == SyncAction::Update(doc.downloads)
                }
            },
            None => a == SyncAction::NeedsManifest,
        },
{
    match local {
        Some(episode) => {
            if episode.get_downloads() == doc.get_downloads() {
                SyncAction::Unchanged
            } else {
                SyncAction::Update(doc.get_downloads())
            }
        },
        None => SyncAction::NeedsManifest,
    }
}

/// The entry after its manifest was scraped: unchanged when the manifest
/// holds no audio block, completed when the block's fields parse, and
/// nothing when they do not.
pub open spec fn completed_doc(d: DocV, manifest: Seq<char>) -> Option<DocV> {
    let text = spec_block_text(manifest, true);
    if text.len() == 0 {
        Some(d)
    } else if parses_u64(spec_get_value("mtime"@, text)) && parses_u64(
        spec_get_value("size"@, text),
    ) && parses_u64(spec_length_digits(text)) && spec_block_filename(text) is Some {
        Some(
            DocV {
                filename: spec_block_filename(text)->Some_0,
                mtime: digits_val(spec_get_value("mtime"@, text)),
                size: digits_val(spec_get_value("size"@, text)),
                length: digits_val(spec_length_digits(text)),
                ..d
            },
        )
    } else {
        None
    }
}

/// Turns a new entry into its record, given the outcome of the manifest
/// fetch. A failed fetch, or a block whose fields do not parse, yields no
/// record: nothing is written and the run proceeds to the next entry.
pub fn complete_new(doc: Doc, manifest: Option<&str>) -> (r: Option<Episode>)
    ensures
        match manifest {
            None => r is None,
            Some(text) => match completed_doc(doc@, text@) {
                Some(dv) => r is Some && r->Some_0@ == episode_of_doc(dv),
                None => r is None,
            },
        },
{
    match manifest {
        None => None,
        Some(text) => {
            let mut d = doc;
            match d.complete(text) {
                Ok(_) => Some(Episode::from_doc(d)),
                Err(_) => None,
            }
        },
    }
}

} // verus!
