//! The typed failures that commands and queries surface. Every error is
//! terminal for the command that raised it: the state is left as it was.

use vstd::prelude::*;

verus! {

#[derive(Clone, Copy, Debug, PartialEq, Eq, Structural)]
pub enum ContractError {
    /// A channel or a profile looked up by key is absent.
    NotFound,
    /// The caller is not the owner of the channel it tries to mutate.
    Unauthorized,
    /// The caller is already tuned into the channel it tunes into.
    AlreadyTuned,
    /// The target of a tune-in does not exist in the registry.
    ChannelNotFound,
    /// The caller rates while not tuned into any channel.
    NoActiveTuneIn,
    /// The caller rates a channel other than the one it is tuned into.
    ChannelMismatch,
    /// A host or storage failure outside the state machine's own rules.
    InvalidState,
}

impl ContractError {
    /// A short name of the error, for hosts that report it as text.
    pub fn as_text(&self) -> (r: &'static str)
        ensures
            r@ == match self {
                ContractError::NotFound => "not found"@,
                ContractError::Unauthorized => "unauthorized"@,
                ContractError::AlreadyTuned => "already tuned in"@,
                ContractError::ChannelNotFound => "channel not found"@,
                ContractError::NoActiveTuneIn => "no active tune-in"@,
                ContractError::ChannelMismatch => "channel mismatch"@,
                ContractError::InvalidState => "invalid state"@,
            },
    {
        match self {
            ContractError::NotFound => "not found",
            ContractError::Unauthorized => "unauthorized",
            ContractError::AlreadyTuned => "already tuned in",
            ContractError::ChannelNotFound => "channel not found",
            ContractError::NoActiveTuneIn => "no active tune-in",
            ContractError::ChannelMismatch => "channel mismatch",
            ContractError::InvalidState => "invalid state",
        }
    }
}

} // verus!
