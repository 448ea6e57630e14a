//! Setting up the router's registry of slabs.
use vstd::prelude::*;

use crate::keys::same_key;
use crate::outside::{derive_key, derived_marker, seeded_key};
use crate::slab::PercolatorError;
use crate::types::zero_key;

verus! {

/// Size of the registry account
pub const REGISTRY_LEN: usize = 43688;

/// The registry account as an instruction sees it
#[derive(Debug, Clone)]
pub struct RegistryAccount {
    /// Address
    pub key: [u8; 32],
    /// Owning program
    pub owner: [u8; 32],
    /// Contents
    pub data: Vec<u8>,
}

/// What is stored first in a registry
#[derive(Debug, Clone, Copy, PartialEq, Eq)]
pub struct RegistryHeader {
    /// Authority of the router
    pub router_id: [u8; 32],
    /// Governance authority
    pub governance: [u8; 32],
    /// Bump of the authority's address
    pub bump: u8,
}

/// Whether the first 32 bytes are all zero.
pub open spec fn is_blank(data: Seq<u8>) -> bool {
    forall|i: int| 0 <= i < 32 ==> #[trigger] data[i] == 0
}

/// What is to be stored in the registry, given the address that it must have.
pub open spec fn registry_setup(
    program_id: [u8; 32],
    account: RegistryAccount,
    expected: Option<[u8; 32]>,
    payer_is_signer: bool,
    governance: [u8; 32],
    authority: [u8; 32],
    bump: u8,
) -> Result<RegistryHeader, PercolatorError> {
    if expected != Some(account.key) {
        Err(PercolatorError::InvalidAccount)
    } else if !payer_is_signer {
        Err(PercolatorError::Unauthorized)
    } else if governance == zero_key() || account.owner != program_id || account.data@.len()
        != REGISTRY_LEN {
        Err(PercolatorError::InvalidAccount)
    } else if !is_blank(account.data@) {
        Err(PercolatorError::AlreadyInitialized)
    } else {
        Ok(RegistryHeader { router_id: authority, governance, bump })
    }
}

/// Whether the first 32 bytes are all zero.
fn is_unused(data: &Vec<u8>) -> (r: bool)
    requires
        data@.len() >= 32,
    ensures
        r == is_blank(data@),
{
    let mut i: usize = 0;
    while i < 32
        invariant
            i <= 32 <= data@.len(),
            forall|k: int| 0 <= k < i ==> #[trigger] data@[k] == 0,
        decreases 32 - i,
    {
        if data[i] != 0 {
            return false;
        }
        i += 1;
    }
    true
}

/// Checks the accounts of an initialization against the address that the registry must have,
/// and decides what is stored in it.
pub fn check_registry(
    program_id: &[u8; 32],
    account: &RegistryAccount,
    expected: Option<[u8; 32]>,
    payer_is_signer: bool,
    governance: &[u8; 32],
    authority: [u8; 32],
    bump: u8,
) -> (r: Result<RegistryHeader, PercolatorError>)
    ensures
        r == registry_setup(
            *program_id,
            *account,
            expected,
            payer_is_signer,
            *governance,
            authority,
            bump,
        ),
{
    match expected {
        Some(k) => {
            if !same_key(&account.key, &k) {
                return Err(PercolatorError::InvalidAccount);
            }
        },
        None => {
            return Err(PercolatorError::InvalidAccount);
        },
    }
    if !payer_is_signer {
        return Err(PercolatorError::Unauthorized);
    }
    if same_key(governance, &[0;32]) {
        return Err(PercolatorError::InvalidAccount);
    }
    if !same_key(&account.owner, program_id) {
        return Err(PercolatorError::InvalidAccount);
    }
    if account.data.len() != REGISTRY_LEN {
        return Err(PercolatorError::InvalidAccount);
    }
    if !is_unused(&account.data) {
        return Err(PercolatorError::AlreadyInitialized);
    }
    Ok(RegistryHeader { router_id: authority, governance: *governance, bump })
}

/// Decides what an initialization stores in the registry. The registry must be at the address
/// derived from the payer with the seed "registry".
pub fn process_initialize_registry(
    program_id: &[u8; 32],
    account: &RegistryAccount,
    payer: &[u8; 32],
    payer_is_signer: bool,
    governance: &[u8; 32],
    authority: [u8; 32],
    bump: u8,
) -> (r: Result<RegistryHeader, PercolatorError>)
    ensures
        r == registry_setup(
            *program_id,
            *account,
            seeded_key(payer@, "registry"@, program_id@),
            payer_is_signer,
            *governance,
            authority,
            bump,
        ),
        program_id@.skip(11) == derived_marker() ==> r == Err::<RegistryHeader, PercolatorError>(
            PercolatorError::InvalidAccount,
        ),
{
    proof {
        reveal_strlit("registry");
    }
    let expected: Option<[u8; 32]> = match derive_key(payer, "registry", program_id) {
        Ok(k) => Some(k),
        Err(_) => None,
    };
    check_registry(
        program_id,
        account,
        expected,
        payer_is_signer,
        governance,
        authority,
        bump,
    )
}

/// What an account that should be a registry is
#[derive(Debug, Clone, Copy, PartialEq, Eq, Structural)]
pub enum RegistryKind {
    /// It belongs to another program
    Foreign,
    /// It belongs to the router, but has another size
    OddSize,
    /// It belongs to the router and has the size of a registry
    Regular,
}

/// Tells what an account that should be a registry is, by its owner and size.
pub fn inspect_registry(owner: &[u8; 32], program_id: &[u8; 32], len: usize) -> (r: RegistryKind)
    ensures
        r == (if *owner != *program_id {
            RegistryKind::Foreign
        } else if len != REGISTRY_LEN {
            RegistryKind::OddSize
        } else {
            RegistryKind::Regular
        }),
{
    if !same_key(owner, program_id) {
        RegistryKind::Foreign
    } else if len != REGISTRY_LEN {
        RegistryKind::OddSize
    } else {
        RegistryKind::Regular
    }
}

/// A registry that has been set up with an authority is not set up again.
pub proof fn law_registry_set_up_once(
    program_id: [u8; 32],
    account: RegistryAccount,
    expected: Option<[u8; 32]>,
    payer_is_signer: bool,
    governance: [u8; 32],
    authority: [u8; 32],
    bump: u8,
    after: RegistryAccount,
)
    requires
        registry_setup(
            program_id,
            account,
            expected,
            payer_is_signer,
            governance,
            authority,
            bump,
        ) is Ok,
        after.key == account.key,
        after.owner == account.owner,
        after.data@.len() == account.data@.len(),
        after.data@.take(32) == authority@,
        authority != zero_key(),
    ensures
        registry_setup(
            program_id,
            after,
            expected,
            payer_is_signer,
            governance,
            authority,
            bump,
        ) == Err::<RegistryHeader, PercolatorError>(PercolatorError::AlreadyInitialized),
{
    if is_blank(after.data@) {
        assert forall|i: int| 0 <= i < 32 implies authority@[i] == zero_key()@[i] by {
            assert(after.data@.take(32)[i] == after.data@[i]);
        }
        assert(authority@ =~= zero_key()@);
        assert(authority =~= zero_key());
    }
}

} // verus!
