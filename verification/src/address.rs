//! Account addresses as their 32 bytes.

use std::str::FromStr;

use solana_sdk::pubkey::{ParsePubkeyError, Pubkey};
use vstd::prelude::*;

verus! {

/// Why a text is not an address.
#[derive(Clone, Copy, Debug, PartialEq, Eq, Structural)]
pub enum AddressError {
    /// The text is too long, or does not decode to 32 bytes.
    WrongSize,
    /// The text is not base58.
    Invalid,
}

/// What a text reads as: the 32 bytes of the address that it is the base58
/// form of, or the reason why it is none.
pub uninterp spec fn decoded_address(text: Seq<char>) -> Result<Seq<u8>, AddressError>;

/// A parsed address with its bytes as a sequence.
pub open spec fn address_view(parsed: Result<[u8; 32], AddressError>) -> Result<
    Seq<u8>,
    AddressError,
> {
    match parsed {
        Ok(bytes) => Ok(bytes@),
        Err(error) => Err(error),
    }
}

/// `Pubkey::from_str` of solana-sdk, with the key handed back as its bytes
/// and the error as a variant of `AddressError`. The contract claims only
/// that the outcome is a function of the text: it is given the name
/// `decoded_address`, and nothing is said of which texts decode.
#[verifier::external_body]
fn parse_pubkey(text: &str) -> (parsed: Result<[u8; 32], AddressError>)
    ensures
        address_view(parsed) == decoded_address(text@),
{
    match Pubkey::from_str(text) {
        Ok(key) => Ok(key.to_bytes()),
        Err(ParsePubkeyError::WrongSize) => Err(AddressError::WrongSize),
        Err(ParsePubkeyError::Invalid) => Err(AddressError::Invalid),
    }
}

/// Reads an address from its base58 form.
pub fn parse_address(text: &str) -> (parsed: Result<[u8; 32], AddressError>)
    ensures
        address_view(parsed) == decoded_address(text@),
        parsed matches Ok(bytes) ==> bytes@.len() == 32,
{
    parse_pubkey(text)
}

/// The two addresses of a token transfer, given what the recipient and the
/// asset each read as: both, or the recipient's error, or else the asset's.
pub open spec fn transfer_pair(
    to: Result<Seq<u8>, AddressError>,
    mint: Result<Seq<u8>, AddressError>,
) -> Result<(Seq<u8>, Seq<u8>), AddressError> {
    match to {
        Err(error) => Err(error),
        Ok(recipient) => match mint {
            Err(error) => Err(error),
            Ok(asset) => Ok((recipient, asset)),
        },
    }
}

/// A pair of parsed addresses with their bytes as sequences.
pub open spec fn pair_view(pair: Result<([u8; 32], [u8; 32]), AddressError>) -> Result<
    (Seq<u8>, Seq<u8>),
    AddressError,
> {
    match pair {
        Ok((recipient, asset)) => Ok((recipient@, asset@)),
        Err(error) => Err(error),
    }
}

/// Joins the recipient and the asset of a token transfer once each has been
/// read: the recipient's error comes first.
pub fn pair_addresses(
    to: Result<[u8; 32], AddressError>,
    mint: Result<[u8; 32], AddressError>,
) -> (pair: Result<([u8; 32], [u8; 32]), AddressError>)
    ensures
        pair_view(pair) == transfer_pair(address_view(to), address_view(mint)),
{
    match to {
        Err(error) => Err(error),
        Ok(recipient) => match mint {
            Err(error) => Err(error),
            Ok(asset) => Ok((recipient, asset)),
        },
    }
}

/// Reads the recipient and the asset of a token transfer from their base58
/// forms.
pub fn parse_transfer_addresses(to: &str, mint: &str) -> (pair: Result<
    ([u8; 32], [u8; 32]),
    AddressError,
>)
    ensures
        pair_view(pair) == transfer_pair(decoded_address(to@), decoded_address(mint@)),
{
    pair_addresses(parse_pubkey(to), parse_pubkey(mint))
}

} // verus!
