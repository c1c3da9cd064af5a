//! The mode of a file: what its header declares, and how the scanner is to
//! parse it for that.

use vstd::prelude::*;

verus! {

/// The mode that the header of a file declares, as the parser reads it off
/// the leading pragma.
#[derive(Clone, Copy, Debug, PartialEq, Eq, Structural)]
pub enum Mode {
    /// Legacy PHP.
    Mphp,
    /// Signatures are declared and nothing is checked.
    Mdecl,
    /// Everything is checked.
    Mstrict,
    /// Unknown functions and classes are let pass.
    Mpartial,
    /// The strict mode with the experimental features.
    Mexperimental,
}

/// The dialect in which a file is scanned.
#[derive(Clone, Copy, Debug, PartialEq, Eq, Structural)]
pub enum ParseMode {
    Default,
    Experimental,
}

impl ParseMode {
    /// The dialect for a file whose header was read as `header`: the
    /// experimental one where the header declares the experimental mode, the
    /// default one for every other header, and where there is no header or it
    /// could not be read.
    pub open spec fn of_header(header: Option<Mode>) -> ParseMode {
        if header == Some(Mode::Mexperimental) {
            ParseMode::Experimental
        } else {
            ParseMode::Default
        }
    }

    /// Decides the dialect for a file whose header was read as `header`.
    pub fn from_header(header: Option<Mode>) -> (mode: ParseMode)
        ensures
            mode == ParseMode::of_header(header),
    {
        match header {
            Some(Mode::Mexperimental) => ParseMode::Experimental,
            _ => ParseMode::Default,
        }
    }
}

} // verus!
