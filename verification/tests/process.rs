use auth_counter::account::AccountRef;
use auth_counter::processor::{process_instruction, CounterError};

fn identity(b: u8) -> Vec<u8> {
    vec![b; 32]
}

fn record_data(authority: &[u8], count: u32) -> Vec<u8> {
    let mut d = authority.to_vec();
    d.extend_from_slice(&count.to_le_bytes());
    d
}

fn account(key: u8, owner: &[u8], is_signer: bool, data: Vec<u8>) -> AccountRef {
    AccountRef { key: identity(key), owner: owner.to_vec(), is_signer, data }
}

/// Target owned by the program with the given data, authority reference
/// signed by `signer`.
fn call(
    data: Vec<u8>,
    signer: u8,
    signed: bool,
    payload: &[u8],
) -> (Result<(), CounterError>, Vec<AccountRef>) {
    let pid = identity(3);
    let mut accounts = vec![
        account(9, &pid, false, data),
        account(signer, &identity(0), signed, Vec::new()),
    ];
    let r = process_instruction(&pid, &mut accounts, &payload.to_vec());
    (r, accounts)
}

#[test]
fn first_call_adopts_signer() {
    let (r, accounts) = call(vec![0u8; 36], 7, true, &[]);
    assert_eq!(r, Ok(()));
    assert_eq!(accounts[0].data, record_data(&identity(7), 1));
}

#[test]
fn first_call_with_payload_counts_from_payload() {
    let (r, accounts) = call(vec![0u8; 36], 7, true, &[5, 0, 0, 0]);
    assert_eq!(r, Ok(()));
    assert_eq!(accounts[0].data, record_data(&identity(7), 5));
}

#[test]
fn second_call_increments_by_le_payload() {
    let (r, accounts) = call(record_data(&identity(7), 1), 7, true, &[5, 0, 0, 0]);
    assert_eq!(r, Ok(()));
    assert_eq!(accounts[0].data, record_data(&identity(7), 6));
}

#[test]
fn empty_payload_increments_by_one() {
    let (r, accounts) = call(record_data(&identity(7), 6), 7, true, &[]);
    assert_eq!(r, Ok(()));
    assert_eq!(accounts[0].data, record_data(&identity(7), 7));
}

#[test]
fn record_is_36_bytes_before_and_after() {
    let before = record_data(&identity(7), 41);
    assert_eq!(before.len(), 36);
    let (r, accounts) = call(before, 7, true, &[]);
    assert_eq!(r, Ok(()));
    assert_eq!(accounts[0].data.len(), 36);
}

#[test]
fn missing_signature_leaves_bytes_unchanged() {
    let before = record_data(&identity(7), 5);
    let (r, accounts) = call(before.clone(), 7, false, &[]);
    assert_eq!(r, Err(CounterError::MissingSignature));
    assert_eq!(accounts[0].data, before);
}

#[test]
fn wrong_owner_leaves_bytes_unchanged() {
    let pid = identity(3);
    let before = record_data(&identity(7), 5);
    let mut accounts = vec![
        account(9, &identity(4), false, before.clone()),
        account(7, &identity(0), true, Vec::new()),
    ];
    let r = process_instruction(&pid, &mut accounts, &Vec::new());
    assert_eq!(r, Err(CounterError::WrongOwner));
    assert_eq!(accounts[0].data, before);
}

#[test]
fn signature_is_checked_before_owner() {
    let pid = identity(3);
    let mut accounts = vec![
        account(9, &identity(4), false, vec![0u8; 36]),
        account(7, &identity(0), false, Vec::new()),
    ];
    let r = process_instruction(&pid, &mut accounts, &Vec::new());
    assert_eq!(r, Err(CounterError::MissingSignature));
}

#[test]
fn short_buffer_is_malformed() {
    let before = vec![0u8; 35];
    let (r, accounts) = call(before.clone(), 7, true, &[]);
    assert_eq!(r, Err(CounterError::Malformed));
    assert_eq!(accounts[0].data, before);
}

#[test]
fn long_buffer_is_malformed() {
    let before = vec![0u8; 37];
    let (r, accounts) = call(before.clone(), 7, true, &[]);
    assert_eq!(r, Err(CounterError::Malformed));
    assert_eq!(accounts[0].data, before);
}

#[test]
fn different_signer_is_rejected() {
    let before = record_data(&identity(7), 1);
    let (r, accounts) = call(before.clone(), 8, true, &[]);
    assert_eq!(r, Err(CounterError::AuthorityMismatch));
    assert_eq!(accounts[0].data, before);
}

#[test]
fn three_byte_payload_is_rejected() {
    let before = record_data(&identity(7), 1);
    let (r, accounts) = call(before.clone(), 7, true, &[5, 0, 0]);
    assert_eq!(r, Err(CounterError::InvalidPayload));
    assert_eq!(accounts[0].data, before);
}

#[test]
fn five_byte_payload_is_rejected() {
    let before = record_data(&identity(7), 1);
    let (r, accounts) = call(before.clone(), 7, true, &[5, 0, 0, 0, 0]);
    assert_eq!(r, Err(CounterError::InvalidPayload));
    assert_eq!(accounts[0].data, before);
}

#[test]
fn increment_wraps_around() {
    let (r, accounts) = call(record_data(&identity(7), 0xFFFF_FFFF), 7, true, &[]);
    assert_eq!(r, Ok(()));
    assert_eq!(accounts[0].data, record_data(&identity(7), 0));
}

#[test]
fn increment_wraps_around_with_payload() {
    let (r, accounts) = call(record_data(&identity(7), 0xFFFF_FFFE), 7, true, &[5, 0, 0, 0]);
    assert_eq!(r, Ok(()));
    assert_eq!(accounts[0].data, record_data(&identity(7), 3));
}

#[test]
fn extra_accounts_are_ignored_and_unchanged() {
    let pid = identity(3);
    let extra = account(11, &identity(12), true, vec![1, 2, 3]);
    let mut accounts = vec![
        account(9, &pid, false, vec![0u8; 36]),
        account(7, &identity(0), true, Vec::new()),
        extra,
    ];
    let r = process_instruction(&pid, &mut accounts, &Vec::new());
    assert_eq!(r, Ok(()));
    assert_eq!(accounts[0].data, record_data(&identity(7), 1));
    assert_eq!(accounts[2].key, identity(11));
    assert_eq!(accounts[2].data, vec![1, 2, 3]);
}

#[test]
fn authority_survives_later_increments() {
    let (r, accounts) = call(record_data(&identity(7), 9), 7, true, &[2, 1, 0, 0]);
    assert_eq!(r, Ok(()));
    assert_eq!(accounts[0].data, record_data(&identity(7), 9 + 258));
}
