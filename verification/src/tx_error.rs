//! Errors of transaction checks.

use vstd::prelude::*;

verus! {

/// The signed data of a change of public key is malformed.
#[derive(Clone, Copy, Debug, PartialEq, Eq, Structural)]
pub enum ChangePubkeySignedDataError {
    /// The signed message has `actual` bytes where `expected` are due.
    SignedMessageLengthMismatch { actual: usize, expected: usize },
}

/// Close operations are disabled.
#[derive(Clone, Copy, Debug, PartialEq, Eq, Structural)]
pub struct CloseOperationsDisabled();

/// The kind of transaction whose check failed.
#[derive(Clone, Copy, Debug, PartialEq, Eq, Structural)]
pub enum TransactionError {
    WithdrawError,
    TransferError,
    MintNFTError,
    WithdrawNFTError,
    ChangePubKeyError,
    SwapError,
    OrderError,
    ForcedExitError,
    CloseError,
}

pub const WRONG_AMOUNT_ERROR: &'static str = "Specified amount is greater than maximum supported amount";

pub const WRONG_FEE_ERROR: &'static str = "Specified fee amount is greater than maximum supported fee";

pub const FEE_AMOUNT_IS_NOT_PACKABLE: &'static str = "Specified fee is not packable";

pub const AMOUNT_IS_NOT_PACKABLE: &'static str = "Specified amount is not packable";

pub const WRONG_ACCOUNT_ID: &'static str = "Specified Account Id is greater than maximum supported";

pub const WRONG_TIME_RANGE: &'static str = "Specified time interval is not valid for the current time";

pub const WRONG_TOKEN: &'static str = "Specified token is not supported";

pub const WRONG_TOKEN_FOR_PAYING_FEE: &'static str = "Specified token is not supported for paying fees";

pub const WRONG_SIGNATURE: &'static str = "L2 signature is incorrect";

pub const WRONG_TO_ADDRESS: &'static str = "Transfer for specified address is not supported";

pub const INVALID_AUTH_DATA: &'static str = "Specified auth data is incorrect";

impl ChangePubkeySignedDataError {
    /// Checks the length of a signed message against the length that is due.
    pub fn check_length(actual: usize, expected: usize) -> (checked: Result<
        (),
        ChangePubkeySignedDataError,
    >)
        ensures
            checked == (if actual == expected {
                Ok::<(), ChangePubkeySignedDataError>(())
            } else {
                Err::<(), ChangePubkeySignedDataError>(
                    ChangePubkeySignedDataError::SignedMessageLengthMismatch { actual, expected },
                )
            }),
    {
        if actual == expected {
            Ok(())
        } else {
            Err(ChangePubkeySignedDataError::SignedMessageLengthMismatch { actual, expected })
        }
    }
}

} // verus!
