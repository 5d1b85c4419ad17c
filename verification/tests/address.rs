use listen_diffs::address::{pair_addresses, parse_address, parse_transfer_addresses, AddressError};

const SYSTEM_PROGRAM: &str = "11111111111111111111111111111111";
const WRAPPED_NATIVE: &str = "So11111111111111111111111111111111111111112";
const WRAPPED_NATIVE_BYTES: [u8; 32] = [
    6, 155, 136, 87, 254, 171, 129, 132, 251, 104, 127, 99, 70, 24, 192, 53, 218, 196, 57, 220,
    26, 235, 59, 85, 152, 160, 240, 0, 0, 0, 0, 1,
];

#[test]
fn all_ones_is_the_zero_address() {
    assert_eq!(parse_address(SYSTEM_PROGRAM), Ok([0u8; 32]));
}

#[test]
fn wrapped_native_mint_decodes_to_its_bytes() {
    assert_eq!(parse_address(WRAPPED_NATIVE), Ok(WRAPPED_NATIVE_BYTES));
}

#[test]
fn text_outside_base58_is_invalid() {
    assert_eq!(parse_address("0OIl"), Err(AddressError::Invalid));
    assert_eq!(parse_address("not an address"), Err(AddressError::Invalid));
}

#[test]
fn text_of_another_length_has_the_wrong_size() {
    assert_eq!(parse_address(""), Err(AddressError::WrongSize));
    assert_eq!(parse_address("abc"), Err(AddressError::WrongSize));
    let long = "1".repeat(45);
    assert_eq!(parse_address(&long), Err(AddressError::WrongSize));
    let long_and_invalid = "0".repeat(45);
    assert_eq!(parse_address(&long_and_invalid), Err(AddressError::WrongSize));
}

#[test]
fn transfer_reads_both_addresses() {
    assert_eq!(
        parse_transfer_addresses(SYSTEM_PROGRAM, WRAPPED_NATIVE),
        Ok(([0u8; 32], WRAPPED_NATIVE_BYTES))
    );
}

#[test]
fn transfer_reports_the_recipient_first() {
    assert_eq!(parse_transfer_addresses("0OIl", "abc"), Err(AddressError::Invalid));
    assert_eq!(parse_transfer_addresses("abc", "0OIl"), Err(AddressError::WrongSize));
    assert_eq!(parse_transfer_addresses(SYSTEM_PROGRAM, "0OIl"), Err(AddressError::Invalid));
    assert_eq!(parse_transfer_addresses("abc", WRAPPED_NATIVE), Err(AddressError::WrongSize));
}

#[test]
fn pairing_keeps_the_first_error() {
    let good = Ok([1u8; 32]);
    let other = Ok([2u8; 32]);
    assert_eq!(pair_addresses(good, other), Ok(([1u8; 32], [2u8; 32])));
    assert_eq!(pair_addresses(Err(AddressError::Invalid), other), Err(AddressError::Invalid));
    assert_eq!(pair_addresses(good, Err(AddressError::WrongSize)), Err(AddressError::WrongSize));
    assert_eq!(
        pair_addresses(Err(AddressError::WrongSize), Err(AddressError::Invalid)),
        Err(AddressError::WrongSize)
    );
}
