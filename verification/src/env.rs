//! The configuration that the scanner is given for a file.

use crate::mode::Mode;
use crate::mode::ParseMode;
use vstd::prelude::*;

verus! {

/// The switches that the scanner reads. A value has no identity beyond its
/// fields.
#[derive(Clone, Copy, Debug, PartialEq, Eq, Structural)]
pub struct ParserEnv {
    pub codegen: bool,
    pub hhvm_compat_mode: bool,
    pub php5_compat_mode: bool,
    pub is_experimental_mode: bool,
}

impl ParserEnv {
    /// The configuration with every switch off.
    pub open spec fn all_off() -> ParserEnv {
        ParserEnv {
            codegen: false,
            hhvm_compat_mode: false,
            php5_compat_mode: false,
            is_experimental_mode: false,
        }
    }

    /// The configuration for a file in `mode`: the experimental switch is on
    /// exactly in the experimental mode, and every other switch is off.
    pub open spec fn of_mode(mode: ParseMode) -> ParserEnv {
        ParserEnv { is_experimental_mode: mode == ParseMode::Experimental, ..ParserEnv::all_off() }
    }

    /// Builds the configuration for a file in `mode`.
    pub fn for_mode(mode: ParseMode) -> (env: ParserEnv)
        ensures
            env == ParserEnv::of_mode(mode),
    {
        let is_experimental = match mode {
            ParseMode::Experimental => true,
            ParseMode::Default => false,
        };
        ParserEnv { is_experimental_mode: is_experimental, ..ParserEnv::default() }
    }
}

impl Default for ParserEnv {
    fn default() -> (env: ParserEnv)
        ensures
            env == ParserEnv::all_off(),
    {
        ParserEnv {
            codegen: false,
            hhvm_compat_mode: false,
            php5_compat_mode: false,
            is_experimental_mode: false,
        }
    }
}

/// The scanner is told of the experimental mode exactly where the header of
/// the file declares it, and no header turns another switch on.
pub proof fn lemma_switches_follow_header(header: Option<Mode>)
    ensures
        ParserEnv::of_mode(ParseMode::of_header(header)).is_experimental_mode <==> header == Some(
            Mode::Mexperimental,
        ),
        header != Some(Mode::Mexperimental) ==> ParserEnv::of_mode(ParseMode::of_header(header))
            == ParserEnv::all_off(),
        !ParserEnv::of_mode(ParseMode::of_header(header)).codegen,
        !ParserEnv::of_mode(ParseMode::of_header(header)).hhvm_compat_mode,
        !ParserEnv::of_mode(ParseMode::of_header(header)).php5_compat_mode,
{
}

} // verus!
