//! Which decoder a file goes to.

use crate::path;
use crate::path::FilePath;
use crate::text;
use crate::text::{same_text, to_lowercase};
use vstd::prelude::*;

verus! {

/// The decoders there are.
#[derive(Clone, Copy, PartialEq, Eq, Structural, Debug)]
pub enum Decoder {
    Opus,
    /// Everything else: MP3, FLAC, WAV, AAC and Ogg Vorbis.
    Symphonia,
}

/// What to try on a file, and what to fall back to when that fails.
#[derive(Clone, Copy, PartialEq, Eq, Structural, Debug)]
pub struct Plan {
    pub first: Decoder,
    pub otherwise: Option<Decoder>,
}

/// What to try on a file, told by its extension. An Ogg container may hold Opus or
/// Vorbis, so Opus is tried first; a file that says it is Opus is nothing else.
pub open spec fn plan_for(path: Seq<u8>) -> Plan {
    match path::extension_text(path) {
        Some(extension) => {
            let lower = text::lowercase(extension);
            if lower == "opus"@ {
                Plan { first: Decoder::Opus, otherwise: None }
            } else if lower == "ogg"@ || lower == "oga"@ {
                Plan { first: Decoder::Opus, otherwise: Some(Decoder::Symphonia) }
            } else {
                Plan { first: Decoder::Symphonia, otherwise: None }
            }
        },
        None => Plan { first: Decoder::Symphonia, otherwise: None },
    }
}

/// Works out what to try on a file.
pub fn plan(path: &FilePath) -> (r: Plan)
    ensures
        r == plan_for(path@),
{
    let Some(extension) = path.extension() else {
        return Plan { first: Decoder::Symphonia, otherwise: None };
    };
    let lower = to_lowercase(extension.as_str());
    if same_text(lower.as_str(), "opus") {
        Plan { first: Decoder::Opus, otherwise: None }
    } else if same_text(lower.as_str(), "ogg") || same_text(lower.as_str(), "oga") {
        Plan { first: Decoder::Opus, otherwise: Some(Decoder::Symphonia) }
    } else {
        Plan { first: Decoder::Symphonia, otherwise: None }
    }
}

/// A file that says it is Opus goes to that decoder and to no other, an Ogg file to both,
/// Opus first, and every other file to the one for the rest.
pub proof fn the_extension_picks_the_decoder(path: Seq<u8>)
    ensures
        ({
            let extension = text::lowercase(path::extension_text(path)->0);
            let plan = plan_for(path);
            &&& path::extension_text(path) is Some && extension == "opus"@ ==> plan.first
                == Decoder::Opus && plan.otherwise is None
            &&& path::extension_text(path) is Some && (extension == "ogg"@ || extension == "oga"@)
                ==> plan.first == Decoder::Opus && plan.otherwise == Some(Decoder::Symphonia)
            &&& path::extension_text(path) is None || !(extension == "opus"@ || extension == "ogg"@
                || extension == "oga"@) ==> plan.first == Decoder::Symphonia && plan.otherwise
                is None
        }),
{
    reveal_strlit("opus");
    reveal_strlit("ogg");
    reveal_strlit("oga");
    assert("opus"@.len() != "ogg"@.len());
    assert("opus"@.len() != "oga"@.len());
}

} // verus!
