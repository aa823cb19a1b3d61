//! The transition function: validate a call, then increment one counter.

use vstd::prelude::*;
use crate::account::{AccountRef, AccountView};
use crate::record::{
    decode_record, encode_record, copy_range, lemma_record_round_trip, read_u32_le, record_bytes,
    record_of_bytes, u32_from_le_bytes, RecordView, IDENTITY_SIZE, RECORD_SIZE,
};

verus! {

/// Why a call was rejected. Every error leaves the target account's bytes
/// untouched: the record is rewritten only after all validations pass.
#[derive(Clone, Copy, Debug, PartialEq, Eq, Structural)]
pub enum CounterError {
    /// The authority reference is not flagged as a transaction signer.
    MissingSignature,
    /// The target account's owner is not the executing program.
    WrongOwner,
    /// The target account's bytes are not a valid 36-byte record.
    Malformed,
    /// The record is initialized and bound to a different authority.
    AuthorityMismatch,
    /// The payload is neither empty nor exactly 4 bytes.
    InvalidPayload,
}

/// Addition of counts, wrapping modulo 2^32. Overflow is not an error: the
/// count silently wraps, matching native unsigned 32-bit semantics.
pub open spec fn wrap_add_u32(c: u32, d: u32) -> u32 {
    if c + d > u32::MAX {
        (c + d - 0x1_0000_0000) as u32
    } else {
        (c + d) as u32
    }
}

/// The wraparound sum is exactly addition modulo 2^32.
pub proof fn lemma_wrap_add_is_mod(c: u32, d: u32)
    ensures
        wrap_add_u32(c, d) == ((c + d) % 0x1_0000_0000) as u32,
{
    if c + d <= u32::MAX {
        vstd::arithmetic::div_mod::lemma_small_mod((c + d) as nat, 0x1_0000_0000);
    } else {
        vstd::arithmetic::div_mod::lemma_mod_multiples_vanish(
            1,
            c + d - 0x1_0000_0000,
            0x1_0000_0000,
        );
        vstd::arithmetic::div_mod::lemma_small_mod((c + d - 0x1_0000_0000) as nat, 0x1_0000_0000);
    }
}

/// The increment a payload asks for: one for an empty payload, the encoded
/// value for a 4-byte little-endian payload, nothing for any other length.
pub open spec fn payload_delta(payload: Seq<u8>) -> Option<u32> {
    if payload.len() == 0 {
        Some(1u32)
    } else if payload.len() == 4 {
        Some(u32_from_le_bytes(payload))
    } else {
        None
    }
}

/// The authority the record is bound to after a successful call: an
/// uninitialized record (count zero) adopts the signer, first-writer-wins;
/// an initialized record keeps its authority forever.
pub open spec fn bound_authority(rec: RecordView, signer_key: Seq<u8>) -> Seq<u8> {
    if rec.count == 0 {
        signer_key
    } else {
        rec.authority
    }
}

/// The complete transition relation, gates in their exact order: on success,
/// the new bytes of the target account; otherwise, which validation failed.
pub open spec fn spec_apply(
    program_id: Seq<u8>,
    target: AccountView,
    authority: AccountView,
    payload: Seq<u8>,
) -> Result<Seq<u8>, CounterError> {
    if !authority.is_signer {
        Err(CounterError::MissingSignature)
    } else if target.owner != program_id {
        Err(CounterError::WrongOwner)
    } else if target.data.len() != RECORD_SIZE {
        Err(CounterError::Malformed)
    } else {
        let rec = record_of_bytes(target.data);
        if rec.count != 0 && rec.authority != authority.key {
            Err(CounterError::AuthorityMismatch)
        } else {
            match payload_delta(payload) {
                Some(delta) => Ok(
                    record_bytes(
                        RecordView {
                            authority: bound_authority(rec, authority.key),
                            count: wrap_add_u32(rec.count, delta),
                        },
                    ),
                ),
                None => Err(CounterError::InvalidPayload),
            }
        }
    }
}

/// A call whose authority reference is not flagged as a signer fails with
/// `MissingSignature`; the contract of [`process_instruction`] then leaves
/// every account byte-for-byte unchanged.
pub proof fn lemma_missing_signature(
    program_id: Seq<u8>,
    target: AccountView,
    authority: AccountView,
    payload: Seq<u8>,
)
    requires
        !authority.is_signer,
    ensures
        spec_apply(program_id, target, authority, payload) == Err::<Seq<u8>, CounterError>(
            CounterError::MissingSignature,
        ),
{
}

/// A signed call against a target the executing program does not own fails
/// with `WrongOwner`; the contract of [`process_instruction`] then leaves
/// every account byte-for-byte unchanged.
pub proof fn lemma_wrong_owner(
    program_id: Seq<u8>,
    target: AccountView,
    authority: AccountView,
    payload: Seq<u8>,
)
    requires
        authority.is_signer,
        target.owner != program_id,
    ensures
        spec_apply(program_id, target, authority, payload) == Err::<Seq<u8>, CounterError>(
            CounterError::WrongOwner,
        ),
{
}

/// A signed, owned call on an initialized record bound to a different
/// identity fails with `AuthorityMismatch`, whatever the payload; the stored
/// record stays as it was.
pub proof fn lemma_authority_mismatch(
    program_id: Seq<u8>,
    target: AccountView,
    authority: AccountView,
    payload: Seq<u8>,
)
    requires
        authority.is_signer,
        target.owner == program_id,
        target.data.len() == RECORD_SIZE,
        record_of_bytes(target.data).count != 0,
        record_of_bytes(target.data).authority != authority.key,
    ensures
        spec_apply(program_id, target, authority, payload) == Err::<Seq<u8>, CounterError>(
            CounterError::AuthorityMismatch,
        ),
{
}

/// A call that passes every earlier gate but carries a payload of any length
/// other than 0 or 4 fails with `InvalidPayload`, and nothing is written.
pub proof fn lemma_invalid_payload(
    program_id: Seq<u8>,
    target: AccountView,
    authority: AccountView,
    payload: Seq<u8>,
)
    requires
        authority.is_signer,
        target.owner == program_id,
        target.data.len() == RECORD_SIZE,
        record_of_bytes(target.data).count == 0 || record_of_bytes(target.data).authority
            == authority.key,
        payload.len() != 0,
        payload.len() != 4,
    ensures
        spec_apply(program_id, target, authority, payload) == Err::<Seq<u8>, CounterError>(
            CounterError::InvalidPayload,
        ),
{
}

/// A call succeeds exactly when every gate passes: the authority signed, the
/// program owns the target, the target holds a well-formed 36-byte record,
/// the record is uninitialized or bound to the signer, and the payload
/// length is 0 or 4. In particular a wrapping increment is never an error.
pub proof fn lemma_success_conditions(
    program_id: Seq<u8>,
    target: AccountView,
    authority: AccountView,
    payload: Seq<u8>,
)
    ensures
        spec_apply(program_id, target, authority, payload) is Ok <==> {
            &&& authority.is_signer
            &&& target.owner == program_id
            &&& target.data.len() == RECORD_SIZE
            &&& (record_of_bytes(target.data).count == 0 || record_of_bytes(
                target.data,
            ).authority == authority.key)
            &&& (payload.len() == 0 || payload.len() == 4)
        },
{
}

/// On every successful call the record is exactly 36 bytes, both before the
/// mutation (shorter or longer buffers are rejected as `Malformed`) and
/// after it (the rewritten encoding).
pub proof fn lemma_success_record_size(
    program_id: Seq<u8>,
    target: AccountView,
    authority: AccountView,
    payload: Seq<u8>,
)
    requires
        authority.wf(),
        spec_apply(program_id, target, authority, payload) is Ok,
    ensures
        target.data.len() == RECORD_SIZE,
        spec_apply(program_id, target, authority, payload) matches Ok(d) && d.len()
            == RECORD_SIZE,
{
}

/// The first successful call on an uninitialized slot (count zero) with an
/// empty payload binds the signer as the record's authority and sets the
/// count to one.
pub proof fn lemma_first_call_binds_signer(
    program_id: Seq<u8>,
    target: AccountView,
    authority: AccountView,
    payload: Seq<u8>,
)
    requires
        authority.wf(),
        authority.is_signer,
        target.owner == program_id,
        target.data.len() == RECORD_SIZE,
        record_of_bytes(target.data).count == 0,
        payload.len() == 0,
    ensures
        spec_apply(program_id, target, authority, payload) == Ok::<Seq<u8>, CounterError>(
            record_bytes(RecordView { authority: authority.key, count: 1u32 }),
        ),
        spec_apply(program_id, target, authority, payload) matches Ok(d) && record_of_bytes(d)
            == (RecordView { authority: authority.key, count: 1u32 }),
{
    lemma_record_round_trip(RecordView { authority: authority.key, count: 1u32 });
}

/// Once a record is initialized, its authority never changes: any further
/// successful call preserves the bound authority bytes.
pub proof fn lemma_authority_immutable(
    program_id: Seq<u8>,
    target: AccountView,
    authority: AccountView,
    payload: Seq<u8>,
)
    requires
        target.data.len() == RECORD_SIZE,
        record_of_bytes(target.data).count != 0,
        spec_apply(program_id, target, authority, payload) is Ok,
    ensures
        spec_apply(program_id, target, authority, payload) matches Ok(d) && record_of_bytes(
            d,
        ).authority == record_of_bytes(target.data).authority,
{
    lemma_record_round_trip(
        RecordView {
            authority: record_of_bytes(target.data).authority,
            count: wrap_add_u32(
                record_of_bytes(target.data).count,
                payload_delta(payload)->Some_0,
            ),
        },
    );
}

/// Byte-for-byte equality of two buffers.
fn bytes_eq(a: &Vec<u8>, b: &Vec<u8>) -> (r: bool)
    ensures
        r <==> a@ == b@,
{
    if a.len() != b.len() {
        return false;
    }
    let mut i: usize = 0;
    while i < a.len()
        invariant
            i <= a@.len(),
            a@.len() == b@.len(),
            forall|j: int| 0 <= j < i ==> a@[j] == b@[j],
        decreases a@.len() - i,
    {
        if a[i] != b[i] {
            return false;
        }
        i = i + 1;
    }
    proof {
        assert(a@ =~= b@);
    }
    true
}

/// Validates one call against a single target account and its claimed
/// authority, and rewrites the target's bytes on success.
///
/// The result and the target's new bytes are exactly what [`spec_apply`]
/// says; on any error the target is unchanged, byte for byte.
pub fn apply(
    program_id: &Vec<u8>,
    target: &mut AccountRef,
    authority: &AccountRef,
    payload: &Vec<u8>,
) -> (r: Result<(), CounterError>)
    requires
        program_id@.len() == IDENTITY_SIZE,
        old(target)@.wf(),
        authority@.wf(),
    ensures
        final(target)@.key == old(target)@.key,
        final(target)@.owner == old(target)@.owner,
        final(target)@.is_signer == old(target)@.is_signer,
        r matches Ok(_) ==> Ok::<Seq<u8>, CounterError>(final(target)@.data) == spec_apply(
            program_id@,
            old(target)@,
            authority@,
            payload@,
        ),
        r matches Err(e) ==> Err::<Seq<u8>, CounterError>(e) == spec_apply(
            program_id@,
            old(target)@,
            authority@,
            payload@,
        ) && *final(target) == *old(target),
{
    if !authority.is_signer {
        return Err(CounterError::MissingSignature);
    }
    if !bytes_eq(&target.owner, program_id) {
        return Err(CounterError::WrongOwner);
    }
    let mut rec = match decode_record(&target.data) {
        Some(rec) => rec,
        None => { return Err(CounterError::Malformed); },
    };
    if rec.count == 0 {
        rec.authority = copy_range(&authority.key, 0, authority.key.len());
    } else {
        if !bytes_eq(&rec.authority, &authority.key) {
            return Err(CounterError::AuthorityMismatch);
        }
    }
    let delta: u32;
    if payload.len() == 0 {
        delta = 1;
    } else if payload.len() == 4 {
        delta = read_u32_le(payload);
    } else {
        return Err(CounterError::InvalidPayload);
    }
    rec.count = rec.count.wrapping_add(delta);
    proof {
        let rec0 = record_of_bytes(old(target)@.data);
        assert(payload_delta(payload@) == Some(delta));
        assert(rec@.authority =~= bound_authority(rec0, authority@.key));
        assert(rec@ =~= RecordView {
            authority: bound_authority(rec0, authority@.key),
            count: wrap_add_u32(rec0.count, delta),
        });
    }
    let new_data = encode_record(&rec);
    target.data = new_data;
    Ok(())
}

/// The instruction entry point: `accounts` must carry the target account
/// first and the claimed authority second; further accounts are ignored.
///
/// On success the target's bytes are overwritten with the new 36-byte
/// record; on any error every account is unchanged. Either way only the
/// target's `data` can change — its identity, owner and signer flag, and all
/// other accounts, are untouched.
pub fn process_instruction(
    program_id: &Vec<u8>,
    accounts: &mut Vec<AccountRef>,
    instruction_data: &Vec<u8>,
) -> (r: Result<(), CounterError>)
    requires
        old(accounts)@.len() >= 2,
        program_id@.len() == IDENTITY_SIZE,
        old(accounts)@[0]@.wf(),
        old(accounts)@[1]@.wf(),
    ensures
        final(accounts)@.len() == old(accounts)@.len(),
        forall|i: int| 1 <= i < old(accounts)@.len() ==> final(accounts)@[i] == old(
            accounts,
        )@[i],
        final(accounts)@[0]@.key == old(accounts)@[0]@.key,
        final(accounts)@[0]@.owner == old(accounts)@[0]@.owner,
        final(accounts)@[0]@.is_signer == old(accounts)@[0]@.is_signer,
        r matches Ok(_) ==> Ok::<Seq<u8>, CounterError>(final(accounts)@[0]@.data) == spec_apply(
            program_id@,
            old(accounts)@[0]@,
            old(accounts)@[1]@,
            instruction_data@,
        ),
        r matches Err(e) ==> Err::<Seq<u8>, CounterError>(e) == spec_apply(
            program_id@,
            old(accounts)@[0]@,
            old(accounts)@[1]@,
            instruction_data@,
        ) && final(accounts)@ == old(accounts)@,
{
    let mut target = accounts.remove(0);
    let r = apply(program_id, &mut target, &accounts[0], instruction_data);
    let ghost t = target;
    accounts.insert(0, target);
    proof {
        assert(accounts@ =~= old(accounts)@.update(0, t));
        if r is Err {
            assert(accounts@ =~= old(accounts)@);
        }
    }
    r
}

} // verus!
