//! The router's collateral vault.
use vstd::prelude::*;

use crate::math::{clamp_pos_i128, max_int, monus};
use crate::slab::PercolatorError;

verus! {

/// Collateral held by the router
#[derive(Debug, Clone, Copy, PartialEq, Eq, Structural)]
pub struct Vault {
    /// Collateral
    pub balance: u128,
    /// Part of it that is pledged
    pub total_pledged: u128,
}

impl Vault {
    /// Collateral that is not pledged.
    pub open spec fn free(self) -> int {
        monus(self.balance as int, self.total_pledged as int)
    }

    /// Takes collateral out that is not pledged.
    pub fn withdraw(&mut self, amount: u128) -> (r: Result<(), PercolatorError>)
        ensures
            r == (if amount <= old(self).free() {
                Ok::<(), PercolatorError>(())
            } else {
                Err(PercolatorError::InsufficientFunds)
            }),
            *final(self) == (if amount <= old(self).free() {
                Vault { balance: (old(self).balance - amount) as u128, ..*old(self) }
            } else {
                *old(self)
            }),
    {
        let free: u128 = self.balance.saturating_sub(self.total_pledged);
        if amount > free {
            return Err(PercolatorError::InsufficientFunds);
        }
        self.balance = self.balance - amount;
        Ok(())
    }
}

/// A withdrawal of collateral by an owner who may take out at most `limit`.
pub open spec fn vault_withdrawal(vault: Vault, limit: i128, amount: u128) -> (
    Vault,
    Result<(), PercolatorError>,
) {
    if amount == 0 {
        (vault, Err(PercolatorError::InvalidQuantity))
    } else if amount > max_int(limit as int, 0) || amount > vault.free() {
        (vault, Err(PercolatorError::InsufficientFunds))
    } else {
        (Vault { balance: (vault.balance - amount) as u128, ..vault }, Ok(()))
    }
}

/// Withdraws collateral, within the warmup limit of the owner and what is not pledged.
pub fn process_withdraw(vault: &mut Vault, max_withdrawable: i128, amount: u128) -> (r: Result<
    (),
    PercolatorError,
>)
    ensures
        *final(vault) == vault_withdrawal(*old(vault), max_withdrawable, amount).0,
        r == vault_withdrawal(*old(vault), max_withdrawable, amount).1,
{
    if amount == 0 {
        return Err(PercolatorError::InvalidQuantity);
    }
    if amount > clamp_pos_i128(max_withdrawable) {
        return Err(PercolatorError::InsufficientFunds);
    }
    vault.withdraw(amount)
}

/// Pledged collateral is never taken out.
pub proof fn law_pledged_stays(vault: Vault, limit: i128, amount: u128)
    requires
        vault.total_pledged <= vault.balance,
    ensures
        vault_withdrawal(vault, limit, amount).0.total_pledged == vault.total_pledged,
        vault_withdrawal(vault, limit, amount).0.balance >= vault.total_pledged,
{
}

} // verus!
