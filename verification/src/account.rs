//! Account references: the per-invocation view of a storage slot.

use vstd::prelude::*;
use crate::record::IDENTITY_SIZE;

verus! {

/// A reference to one account, as delivered by the trusted ledger runtime.
///
/// The runtime — not this library — verifies that `is_signer` reflects a
/// cryptographic signature and that `owner` is the slot's true owner; this
/// library only branches on them.
#[derive(Debug)]
pub struct AccountRef {
    /// The account's own 32-byte identity (its address).
    pub key: Vec<u8>,
    /// Identity of the program that owns the account's storage slot.
    pub owner: Vec<u8>,
    /// Whether the holder of `key`'s private credential signed this call.
    pub is_signer: bool,
    /// The slot's raw persisted bytes.
    pub data: Vec<u8>,
}

/// Mathematical view of an [`AccountRef`].
#[verifier::ext_equal]
pub ghost struct AccountView {
    pub key: Seq<u8>,
    pub owner: Seq<u8>,
    pub is_signer: bool,
    pub data: Seq<u8>,
}

impl View for AccountRef {
    type V = AccountView;

    open spec fn view(&self) -> AccountView {
        AccountView {
            key: self.key@,
            owner: self.owner@,
            is_signer: self.is_signer,
            data: self.data@,
        }
    }
}

impl AccountView {
    /// A well-formed account reference carries full 32-byte identities.
    pub open spec fn wf(self) -> bool {
        self.key.len() == IDENTITY_SIZE && self.owner.len() == IDENTITY_SIZE
    }
}

} // verus!
