use percolator::registry::{
    check_registry, inspect_registry, process_initialize_registry, RegistryAccount,
    RegistryHeader, RegistryKind, REGISTRY_LEN,
};
use percolator::slab::PercolatorError;
use solana_sdk::pubkey::Pubkey;

fn pubkey_from_seed(seed: u8) -> [u8; 32] {
    let mut bytes = [0u8; 32];
    bytes[0] = seed;
    bytes
}

fn registry_address(payer: &[u8; 32], program_id: &[u8; 32]) -> [u8; 32] {
    let payer = Pubkey::new_from_array(*payer);
    let program_id = Pubkey::new_from_array(*program_id);
    Pubkey::create_with_seed(&payer, "registry", &program_id).unwrap().to_bytes()
}

fn fresh_registry(payer: &[u8; 32], program_id: &[u8; 32]) -> RegistryAccount {
    RegistryAccount {
        key: registry_address(payer, program_id),
        owner: *program_id,
        data: vec![0u8; REGISTRY_LEN],
    }
}

#[test]
fn test_positive_initialize_existing_account() {
    let program_id = pubkey_from_seed(1);
    let governance = pubkey_from_seed(10);
    let payer_key = pubkey_from_seed(20);
    let account = fresh_registry(&payer_key, &program_id);

    let result = process_initialize_registry(
        &program_id,
        &account,
        &payer_key,
        true,
        &governance,
        program_id,
        255,
    );

    assert!(result.is_ok(), "Should successfully initialize existing account");
    let header = result.unwrap();
    assert_eq!(header.router_id, program_id);
    assert_eq!(header, RegistryHeader { router_id: program_id, governance, bump: 255 });
}

#[test]
fn test_negative_wrong_pda_address() {
    let program_id = pubkey_from_seed(1);
    let governance = pubkey_from_seed(10);
    let payer_key = pubkey_from_seed(20);
    let mut account = fresh_registry(&payer_key, &program_id);
    account.key = pubkey_from_seed(99);

    let result = process_initialize_registry(
        &program_id,
        &account,
        &payer_key,
        true,
        &governance,
        program_id,
        255,
    );

    assert!(result.is_err());
    assert_eq!(result.unwrap_err(), PercolatorError::InvalidAccount);
}

#[test]
fn test_negative_non_signer_payer() {
    let program_id = pubkey_from_seed(1);
    let governance = pubkey_from_seed(10);
    let payer_key = pubkey_from_seed(20);
    let account = fresh_registry(&payer_key, &program_id);

    let result = process_initialize_registry(
        &program_id,
        &account,
        &payer_key,
        false,
        &governance,
        program_id,
        255,
    );

    assert!(result.is_err());
    assert_eq!(result.unwrap_err(), PercolatorError::Unauthorized);
}

#[test]
fn test_negative_governance_is_zero() {
    let program_id = pubkey_from_seed(1);
    let governance = [0u8; 32];
    let payer_key = pubkey_from_seed(20);
    let account = fresh_registry(&payer_key, &program_id);

    let result = process_initialize_registry(
        &program_id,
        &account,
        &payer_key,
        true,
        &governance,
        program_id,
        255,
    );

    assert!(result.is_err());
    assert_eq!(result.unwrap_err(), PercolatorError::InvalidAccount);
}

#[test]
fn test_negative_governance_is_system_program() {
    let program_id = pubkey_from_seed(1);
    let governance = solana_sdk::system_program::id().to_bytes();
    let payer_key = pubkey_from_seed(20);
    let account = fresh_registry(&payer_key, &program_id);

    let result = process_initialize_registry(
        &program_id,
        &account,
        &payer_key,
        true,
        &governance,
        program_id,
        255,
    );

    assert!(result.is_err());
    assert_eq!(result.unwrap_err(), PercolatorError::InvalidAccount);
}

#[test]
fn test_negative_wrong_account_owner() {
    let program_id = pubkey_from_seed(1);
    let governance = pubkey_from_seed(10);
    let payer_key = pubkey_from_seed(20);
    let mut account = fresh_registry(&payer_key, &program_id);
    account.owner = pubkey_from_seed(99);

    let result = process_initialize_registry(
        &program_id,
        &account,
        &payer_key,
        true,
        &governance,
        program_id,
        255,
    );

    assert!(result.is_err());
    assert_eq!(result.unwrap_err(), PercolatorError::InvalidAccount);
}

#[test]
fn test_negative_wrong_account_size() {
    let program_id = pubkey_from_seed(1);
    let governance = pubkey_from_seed(10);
    let payer_key = pubkey_from_seed(20);
    let mut account = fresh_registry(&payer_key, &program_id);
    account.data = vec![0u8; 100];

    let result = process_initialize_registry(
        &program_id,
        &account,
        &payer_key,
        true,
        &governance,
        program_id,
        255,
    );

    assert!(result.is_err());
    assert_eq!(result.unwrap_err(), PercolatorError::InvalidAccount);
}

#[test]
fn test_negative_double_initialization() {
    let program_id = pubkey_from_seed(1);
    let governance = pubkey_from_seed(10);
    let payer_key = pubkey_from_seed(20);
    let mut account = fresh_registry(&payer_key, &program_id);
    // Mark as initialized by setting the first byte
    account.data[0] = 1;

    let result = process_initialize_registry(
        &program_id,
        &account,
        &payer_key,
        true,
        &governance,
        program_id,
        255,
    );

    assert!(result.is_err());
    assert_eq!(result.unwrap_err(), PercolatorError::AlreadyInitialized);
}

#[test]
fn registry_is_set_up_once() {
    let program_id = pubkey_from_seed(1);
    let payer_key = pubkey_from_seed(20);
    let mut account = fresh_registry(&payer_key, &program_id);
    let header = process_initialize_registry(
        &program_id,
        &account,
        &payer_key,
        true,
        &pubkey_from_seed(10),
        pubkey_from_seed(5),
        254,
    )
    .unwrap();
    account.data[..32].copy_from_slice(&header.router_id);

    let again = process_initialize_registry(
        &program_id,
        &account,
        &payer_key,
        true,
        &pubkey_from_seed(10),
        pubkey_from_seed(5),
        254,
    );
    assert_eq!(again, Err(PercolatorError::AlreadyInitialized));
}

#[test]
fn a_derived_owner_derives_no_address() {
    // The owner ends in the marker that derived addresses are hashed with.
    let mut program_id = [7u8; 32];
    program_id[11..].copy_from_slice(b"ProgramDerivedAddress");
    let payer_key = pubkey_from_seed(20);
    let account = RegistryAccount {
        key: [0u8; 32],
        owner: program_id,
        data: vec![0u8; REGISTRY_LEN],
    };
    let result = process_initialize_registry(
        &program_id,
        &account,
        &payer_key,
        true,
        &pubkey_from_seed(10),
        program_id,
        1,
    );
    assert_eq!(result, Err(PercolatorError::InvalidAccount));
}

#[test]
fn the_address_is_checked_first() {
    let program_id = pubkey_from_seed(1);
    let mut account = fresh_registry(&pubkey_from_seed(20), &program_id);
    account.data[0] = 1;
    let other = Some(pubkey_from_seed(3));
    let zero = [0u8; 32];
    assert_eq!(
        check_registry(&program_id, &account, other, false, &zero, zero, 0),
        Err(PercolatorError::InvalidAccount)
    );
    assert_eq!(
        check_registry(&program_id, &account, None, false, &zero, zero, 0),
        Err(PercolatorError::InvalidAccount)
    );
    assert_eq!(
        check_registry(&program_id, &account, Some(account.key), false, &zero, zero, 0),
        Err(PercolatorError::Unauthorized)
    );
}

#[test]
fn a_registry_is_told_by_owner_and_size() {
    let program = pubkey_from_seed(1);
    let other = pubkey_from_seed(2);
    assert_eq!(inspect_registry(&other, &program, REGISTRY_LEN), RegistryKind::Foreign);
    assert_eq!(inspect_registry(&program, &program, 100), RegistryKind::OddSize);
    assert_eq!(inspect_registry(&program, &program, REGISTRY_LEN), RegistryKind::Regular);
}
