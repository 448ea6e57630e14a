//! What the library has from outside: addresses as `solana_sdk` reads and derives them, and
//! lower case as the standard library defines it. Nothing in this file is proved; the rest of
//! the library rests on these contracts.
use std::str::FromStr;

use solana_sdk::pubkey::{ParsePubkeyError, Pubkey, PubkeyError};
use vstd::prelude::*;

verus! {

/// Why a text is not an address.
#[verifier::external_type_specification]
#[verifier::external_body]
pub struct ExParsePubkeyError(ParsePubkeyError);

/// Why an address cannot be derived.
#[verifier::external_type_specification]
#[verifier::external_body]
pub struct ExPubkeyError(PubkeyError);

/// The address that a text stands for, if it stands for one.
pub uninterp spec fn decoded_key(text: Seq<char>) -> Option<[u8; 32]>;

/// The address derived from a base address, a seed and an owner, if there is one.
pub uninterp spec fn seeded_key(base: Seq<u8>, seed: Seq<char>, owner: Seq<u8>) -> Option<[u8; 32]>;

/// A text in lower case.
pub uninterp spec fn lowercase(text: Seq<char>) -> Seq<char>;

/// The last bytes of an owner for which no address is derived.
pub open spec fn derived_marker() -> Seq<u8> {
    seq![
        80u8, 114u8, 111u8, 103u8, 114u8, 97u8, 109u8, 68u8, 101u8, 114u8, 105u8, 118u8, 101u8,
        100u8, 65u8, 100u8, 100u8, 114u8, 101u8, 115u8, 115u8,
    ]
}

/// `solana_sdk::pubkey::Pubkey::from_str`: reads an address in base 58. Claims that the result
/// depends on the text alone, and that no text of more than 44 bytes is an address. How the
/// characters make up the bytes is left unsaid.
#[verifier::external_body]
pub(crate) fn parse_key(text: &str) -> (r: Result<[u8; 32], ParsePubkeyError>)
    ensures
        match decoded_key(text@) {
            Some(k) => r == Ok::<[u8; 32], ParsePubkeyError>(k),
            None => r is Err,
        },
        text@.len() > 44 ==> r is Err,
{
    Pubkey::from_str(text).map(|k| k.to_bytes())
}

/// `solana_sdk::pubkey::Pubkey::create_with_seed`: derives an address by hashing base, seed and
/// owner. Claims that the result depends on these alone, and that a seed of at most eight
/// characters fails only for an owner that ends in the marker of derived addresses. What
/// the hash is is left unsaid.
#[verifier::external_body]
pub(crate) fn derive_key(base: &[u8; 32], seed: &str, owner: &[u8; 32]) -> (r: Result<
    [u8; 32],
    PubkeyError,
>)
    ensures
        match seeded_key(base@, seed@, owner@) {
            Some(k) => r == Ok::<[u8; 32], PubkeyError>(k),
            None => r is Err,
        },
        seed@.len() <= 8 ==> (r is Err <==> owner@.skip(11) == derived_marker()),
{
    let base = Pubkey::new_from_array(*base);
    let owner = Pubkey::new_from_array(*owner);
    Pubkey::create_with_seed(&base, seed, &owner).map(|k| k.to_bytes())
}

/// `str::to_lowercase`: claims that the result depends on the text alone. Which characters
/// become which is left to Unicode.
#[verifier::external_body]
pub(crate) fn to_lowercase(text: &str) -> (r: String)
    ensures
        r@ == lowercase(text@),
{
    text.to_lowercase()
}

} // verus!
