use listen_diffs::amount::Amount;
use listen_diffs::diffs::Diff;
use listen_diffs::swap::{price_legs, process_diffs, swap_legs, SwapError, SwapLegs, WSOL_MINT_KEY_STR};

fn number(value: f64) -> Amount {
    Amount::from_bits(value.to_bits())
}

fn float(amount: Amount) -> f64 {
    f64::from_bits(amount.to_bits())
}

fn divide(a: Amount, b: Amount) -> Amount {
    number(float(a) / float(b))
}

fn multiply(a: Amount, b: Amount) -> Amount {
    number(float(a) * float(b))
}

fn leg(mint: &str, delta: f64) -> Diff {
    Diff {
        mint: mint.to_string(),
        pre_amount: number(0.0),
        post_amount: number(delta),
        diff: number(delta),
        owner: "trader".to_string(),
    }
}

fn quote(diffs: &Vec<Diff>, sol_price: f64) -> Result<(f64, f64, String), SwapError> {
    process_diffs(diffs, number(sol_price), divide, multiply)
        .map(|(price, notional, mint)| (float(price), float(notional), mint))
}

#[test]
fn reference_leg_first_is_priced() {
    let diffs = vec![leg(WSOL_MINT_KEY_STR, -2.0), leg("TKN", 1000.0)];
    let (price, notional, mint) = quote(&diffs, 150.0).unwrap();
    assert_eq!(price, (2.0 / 1000.0) * 150.0);
    assert!((price - 0.3).abs() < 1e-12);
    assert_eq!(notional, 300.0);
    assert_eq!(mint, "TKN");
}

#[test]
fn pivot_finds_the_two_amounts() {
    let diffs = vec![leg(WSOL_MINT_KEY_STR, -2.0), leg("TKN", 1000.0)];
    let legs = swap_legs(&diffs).unwrap();
    assert_eq!(float(legs.sol_amount), 2.0);
    assert_eq!(float(legs.token_amount), 1000.0);
    assert_eq!(legs.coin_mint, "TKN");
}

#[test]
fn swapping_the_legs_changes_nothing() {
    let forward = vec![leg(WSOL_MINT_KEY_STR, -2.0), leg("TKN", 1000.0)];
    let backward = vec![leg("TKN", 1000.0), leg(WSOL_MINT_KEY_STR, -2.0)];
    assert_eq!(swap_legs(&forward), swap_legs(&backward));
    assert_eq!(quote(&forward, 150.0), quote(&backward, 150.0));
    assert_eq!(quote(&backward, 150.0), Ok(((2.0 / 1000.0) * 150.0, 300.0, "TKN".to_string())));
}

#[test]
fn selling_the_token_is_priced_alike() {
    let diffs = vec![leg("TKN", -500.0), leg(WSOL_MINT_KEY_STR, 1.25)];
    assert_eq!(quote(&diffs, 200.0), Ok(((1.25 / 500.0) * 200.0, 250.0, "TKN".to_string())));
}

#[test]
fn swap_without_reference_leg_is_rejected() {
    let diffs = vec![leg("TKN1", -3.0), leg("TKN2", 5.0)];
    assert_eq!(quote(&diffs, 150.0), Err(SwapError::NonReferenceSwap));
    assert_eq!(swap_legs(&diffs), Err(SwapError::NonReferenceSwap));
}

#[test]
fn swap_of_reference_for_reference_is_rejected() {
    let diffs = vec![leg(WSOL_MINT_KEY_STR, -3.0), leg(WSOL_MINT_KEY_STR, 3.0)];
    assert_eq!(quote(&diffs, 150.0), Err(SwapError::NonReferenceSwap));
}

#[test]
fn reference_identifier_is_case_sensitive() {
    let lower = WSOL_MINT_KEY_STR.to_lowercase();
    let diffs = vec![leg(&lower, -2.0), leg("TKN", 1000.0)];
    assert_eq!(quote(&diffs, 150.0), Err(SwapError::NonReferenceSwap));
}

#[test]
fn other_counts_of_legs_are_rejected() {
    let none: Vec<Diff> = Vec::new();
    let one = vec![leg(WSOL_MINT_KEY_STR, -2.0)];
    let three = vec![leg(WSOL_MINT_KEY_STR, -2.0), leg("TKN", 1000.0), leg("TKN2", 1.0)];
    assert_eq!(quote(&none, 150.0), Err(SwapError::WrongLegCount));
    assert_eq!(quote(&one, 150.0), Err(SwapError::WrongLegCount));
    assert_eq!(quote(&three, 150.0), Err(SwapError::WrongLegCount));
    assert_eq!(swap_legs(&three), Err(SwapError::WrongLegCount));
}

#[test]
fn zero_traded_amount_is_rejected() {
    let plus = vec![leg(WSOL_MINT_KEY_STR, -2.0), leg("TKN", 0.0)];
    let minus = vec![leg("TKN", -0.0), leg(WSOL_MINT_KEY_STR, -2.0)];
    assert_eq!(quote(&plus, 150.0), Err(SwapError::ZeroTradedAmount));
    assert_eq!(quote(&minus, 150.0), Err(SwapError::ZeroTradedAmount));
}

#[test]
fn zero_reference_amount_is_priced_at_zero() {
    let diffs = vec![leg(WSOL_MINT_KEY_STR, 0.0), leg("TKN", 10.0)];
    assert_eq!(quote(&diffs, 150.0), Ok((0.0, 0.0, "TKN".to_string())));
}

#[test]
fn wrong_count_comes_before_the_pivot() {
    let diffs = vec![leg("TKN1", 1.0)];
    assert_eq!(swap_legs(&diffs), Err(SwapError::WrongLegCount));
}

#[test]
fn missing_reference_comes_before_the_zero_amount() {
    let diffs = vec![leg("TKN1", 0.0), leg("TKN2", 0.0)];
    assert_eq!(swap_legs(&diffs), Err(SwapError::NonReferenceSwap));
}

#[test]
fn legs_are_priced_by_the_given_operations() {
    let legs = SwapLegs {
        sol_amount: number(3.0),
        token_amount: number(4.0),
        coin_mint: "TKN".to_string(),
    };
    let (price, notional, mint) = price_legs(legs, number(10.0), divide, multiply);
    assert_eq!(float(price), 7.5);
    assert_eq!(float(notional), 30.0);
    assert_eq!(mint, "TKN");
}

#[test]
fn errors_have_their_words() {
    assert_eq!(SwapError::NonReferenceSwap.message(), "Non-WSOL swap");
    assert_eq!(SwapError::WrongLegCount.message(), "a swap has exactly two legs");
    assert_eq!(SwapError::ZeroTradedAmount.message(), "the traded amount is zero");
}

#[test]
fn reference_asset_is_the_wrapped_native_token() {
    assert_eq!(WSOL_MINT_KEY_STR, "So11111111111111111111111111111111111111112");
}
