//! The failure taxonomy of the graffiti NFT sale that sits next to the
//! exchange, with its human-readable rendering.

use vstd::prelude::*;

verus! {

/// Why a paid NFT mint or a proceeds withdrawal was refused.
#[derive(Clone, Copy, Debug, PartialEq, Eq, Structural)]
pub enum ShidenGraffitiError {
    CannotMintZeroTokens,
    CollectionIsFull,
    BadMintValue,
    WithdrawalFailed,
}

impl ShidenGraffitiError {
    /// The variant's name, as spoken of in contracts.
    pub open spec fn name(self) -> Seq<char> {
        match self {
            ShidenGraffitiError::CannotMintZeroTokens => "CannotMintZeroTokens"@,
            ShidenGraffitiError::CollectionIsFull => "CollectionIsFull"@,
            ShidenGraffitiError::BadMintValue => "BadMintValue"@,
            ShidenGraffitiError::WithdrawalFailed => "WithdrawalFailed"@,
        }
    }

    /// The variant's name as an owned string.
    pub fn as_str(&self) -> (r: String)
        ensures
            r@ == self.name(),
    {
        broadcast use vstd::string::to_string_from_display_ensures_for_str;

        match self {
            ShidenGraffitiError::CannotMintZeroTokens => "CannotMintZeroTokens".to_string(),
            ShidenGraffitiError::CollectionIsFull => "CollectionIsFull".to_string(),
            ShidenGraffitiError::BadMintValue => "BadMintValue".to_string(),
            ShidenGraffitiError::WithdrawalFailed => "WithdrawalFailed".to_string(),
        }
    }
}

} // verus!
