//! What can go wrong.

use vstd::prelude::*;

verus! {

/// Why a conversion was refused.
#[derive(Clone, Copy, Debug, PartialEq, Eq, Structural)]
pub enum SymbolizeError {
    /// The palette holds no symbol.
    EmptyPalette,
    /// The scale is below zero.
    NegativeScale,
    /// A pixel was to be matched against a palette without entries.
    NoMatch,
    /// The name is not that of a filter.
    UnknownFilter,
}

impl SymbolizeError {
    /// The text shown to the user for this error.
    pub open spec fn spec_message(self) -> Seq<char> {
        match self {
            SymbolizeError::EmptyPalette => "pallete should contain at leasst one symbol, aborting"@,
            SymbolizeError::NegativeScale => "scale should be > 0, aborting"@,
            SymbolizeError::NoMatch => "unexpected error, can't find matching char for a pixel. aborting"@,
            SymbolizeError::UnknownFilter => "unknown filter type, aborting"@,
        }
    }

    pub fn message(&self) -> (text: String)
        ensures
            text@ == self.spec_message(),
    {
        match self {
            SymbolizeError::EmptyPalette => "pallete should contain at leasst one symbol, aborting".to_owned(),
            SymbolizeError::NegativeScale => "scale should be > 0, aborting".to_owned(),
            SymbolizeError::NoMatch => "unexpected error, can't find matching char for a pixel. aborting".to_owned(),
            SymbolizeError::UnknownFilter => "unknown filter type, aborting".to_owned(),
        }
    }
}

} // verus!
