//! Pricing a two-asset swap against the reference asset.

use vstd::prelude::*;

use crate::amount::{lemma_magnitude_idempotent, Amount};
use crate::diffs::{diff_views, Diff, DiffView};
use crate::text::str_eq;

verus! {

/// The identifier of the reference asset, the wrapped native token.
pub const WSOL_MINT_KEY_STR: &'static str = "So11111111111111111111111111111111111111112";

/// Why a list of diffs is not priced.
#[derive(Clone, Copy, Debug, PartialEq, Eq, Structural)]
pub enum SwapError {
    /// The list does not hold exactly two diffs.
    WrongLegCount,
    /// Neither diff, or each of them, is of the reference asset.
    NonReferenceSwap,
    /// The traded asset's amount did not change, so no price can be formed.
    ZeroTradedAmount,
}

impl SwapError {
    /// The words for this error.
    pub open spec fn message_text(self) -> Seq<char> {
        match self {
            SwapError::WrongLegCount => "a swap has exactly two legs"@,
            SwapError::NonReferenceSwap => "Non-WSOL swap"@,
            SwapError::ZeroTradedAmount => "the traded amount is zero"@,
        }
    }

    /// The words for this error.
    pub fn message(&self) -> (text: String)
        ensures
            text@ == self.message_text(),
    {
        match self {
            SwapError::WrongLegCount => "a swap has exactly two legs".to_owned(),
            SwapError::NonReferenceSwap => "Non-WSOL swap".to_owned(),
            SwapError::ZeroTradedAmount => "the traded amount is zero".to_owned(),
        }
    }
}

/// The two legs of a swap, told apart.
#[derive(Clone, Debug, PartialEq, Eq)]
pub struct SwapLegs {
    /// How much of the reference asset changed hands.
    pub sol_amount: Amount,
    /// How much of the traded asset changed hands.
    pub token_amount: Amount,
    /// The traded asset.
    pub coin_mint: String,
}

/// `SwapLegs` with the asset read as a sequence of characters.
pub struct SwapLegsView {
    pub sol_amount: Amount,
    pub token_amount: Amount,
    pub coin_mint: Seq<char>,
}

impl View for SwapLegs {
    type V = SwapLegsView;

    open spec fn view(&self) -> SwapLegsView {
        SwapLegsView {
            sol_amount: self.sol_amount,
            token_amount: self.token_amount,
            coin_mint: self.coin_mint@,
        }
    }
}

/// Whether a diff is of the reference asset.
pub open spec fn is_reference(diff: DiffView) -> bool {
    diff.mint == WSOL_MINT_KEY_STR@
}

/// The legs when `sol` is the diff of the reference asset and `token` the
/// other one: the magnitudes of the two differences and the traded asset,
/// unless the traded amount is zero.
pub open spec fn legs_of(sol: DiffView, token: DiffView) -> Result<SwapLegsView, SwapError> {
    if token.diff.is_zero_value() {
        Err(SwapError::ZeroTradedAmount)
    } else {
        Ok(
            SwapLegsView {
                sol_amount: sol.diff.magnitude(),
                token_amount: token.diff.magnitude(),
                coin_mint: token.mint,
            },
        )
    }
}

/// What a list of diffs resolves to: the legs of the swap where the list
/// holds two diffs of which exactly one is of the reference asset and the
/// other has a difference that is not zero, else the reason why not.
pub open spec fn resolve(diffs: Seq<DiffView>) -> Result<SwapLegsView, SwapError> {
    if diffs.len() != 2 {
        Err(SwapError::WrongLegCount)
    } else if is_reference(diffs[0]) && !is_reference(diffs[1]) {
        legs_of(diffs[0], diffs[1])
    } else if is_reference(diffs[1]) && !is_reference(diffs[0]) {
        legs_of(diffs[1], diffs[0])
    } else {
        Err(SwapError::NonReferenceSwap)
    }
}

/// Tells the two legs of a swap apart.
pub fn swap_legs(diffs: &Vec<Diff>) -> (legs: Result<SwapLegs, SwapError>)
    ensures
        match legs {
            Ok(found) => resolve(diff_views(diffs@)) == Ok::<SwapLegsView, SwapError>(found@),
            Err(error) => resolve(diff_views(diffs@)) == Err::<SwapLegsView, SwapError>(error),
        },
{
    if diffs.len() != 2 {
        return Err(SwapError::WrongLegCount);
    }
    let token0 = &diffs[0];
    let token1 = &diffs[1];
    proof {
        assert(diff_views(diffs@)[0] == token0@);
        assert(diff_views(diffs@)[1] == token1@);
    }
    let first = str_eq(token0.mint.as_str(), WSOL_MINT_KEY_STR);
    let second = str_eq(token1.mint.as_str(), WSOL_MINT_KEY_STR);
    let (sol, token) = if first && !second {
        (token0, token1)
    } else if second && !first {
        (token1, token0)
    } else {
        return Err(SwapError::NonReferenceSwap);
    };
    if token.diff.is_zero() {
        return Err(SwapError::ZeroTradedAmount);
    }
    Ok(
        SwapLegs {
            sol_amount: sol.diff.abs(),
            token_amount: token.diff.abs(),
            coin_mint: token.mint.clone(),
        },
    )
}

/// Whether `price` and `notional` are what the two operations give for the
/// legs: the price is the quotient of the reference amount by the traded
/// amount, multiplied by the reference price; the notional is the reference
/// amount multiplied by the reference price.
pub open spec fn priced<D: Fn(Amount, Amount) -> Amount, M: Fn(Amount, Amount) -> Amount>(
    divide: D,
    multiply: M,
    legs: SwapLegsView,
    sol_price: Amount,
    price: Amount,
    notional: Amount,
) -> bool {
    &&& exists|ratio: Amount|
        divide.ensures((legs.sol_amount, legs.token_amount), ratio) && multiply.ensures(
            (ratio, sol_price),
            price,
        )
    &&& multiply.ensures((legs.sol_amount, sol_price), notional)
}

/// Whether the two operations can be applied to the legs as `priced` asks.
pub open spec fn priceable<D: Fn(Amount, Amount) -> Amount, M: Fn(Amount, Amount) -> Amount>(
    divide: D,
    multiply: M,
    legs: SwapLegsView,
    sol_price: Amount,
) -> bool {
    &&& divide.requires((legs.sol_amount, legs.token_amount))
    &&& forall|ratio: Amount|
        divide.ensures((legs.sol_amount, legs.token_amount), ratio) ==> multiply.requires(
            (ratio, sol_price),
        )
    &&& multiply.requires((legs.sol_amount, sol_price))
}

/// Prices the legs: the unit price of the traded asset, the notional size
/// of the swap, and the traded asset.
pub fn price_legs<D: Fn(Amount, Amount) -> Amount, M: Fn(Amount, Amount) -> Amount>(
    legs: SwapLegs,
    sol_price: Amount,
    divide: D,
    multiply: M,
) -> (quote: (Amount, Amount, String))
    requires
        priceable(divide, multiply, legs@, sol_price),
    ensures
        priced(divide, multiply, legs@, sol_price, quote.0, quote.1),
        quote.2@ == legs@.coin_mint,
{
    let ratio = divide(legs.sol_amount, legs.token_amount);
    let price = multiply(ratio, sol_price);
    let swap_amount = multiply(legs.sol_amount, sol_price);
    (price, swap_amount, legs.coin_mint)
}

/// Whether `outcome` is what a list of diffs is quoted at: the error that
/// the list resolves to, or else the traded asset with a price and a
/// notional that the two operations give for its legs.
pub open spec fn is_quote_of<D: Fn(Amount, Amount) -> Amount, M: Fn(Amount, Amount) -> Amount>(
    divide: D,
    multiply: M,
    diffs: Seq<DiffView>,
    sol_price: Amount,
    outcome: Result<(Amount, Amount, Seq<char>), SwapError>,
) -> bool {
    match resolve(diffs) {
        Ok(legs) => outcome matches Ok(quote) && priced(
            divide,
            multiply,
            legs,
            sol_price,
            quote.0,
            quote.1,
        ) && quote.2 == legs.coin_mint,
        Err(error) => outcome == Err::<(Amount, Amount, Seq<char>), SwapError>(error),
    }
}

/// A quote with the asset read as a sequence of characters.
pub open spec fn quote_view(outcome: Result<(Amount, Amount, String), SwapError>) -> Result<
    (Amount, Amount, Seq<char>),
    SwapError,
> {
    match outcome {
        Ok((price, notional, mint)) => Ok((price, notional, mint@)),
        Err(error) => Err(error),
    }
}

/// Prices a swap from its two diffs and the price of the reference asset.
///
/// The diffs are the two legs of the swap, in either order. Exactly one of
/// them has to be of the reference asset, and the other's difference must
/// not be zero. The result is the unit price of the traded asset, the
/// notional size of the swap, and the traded asset; the arithmetic is that
/// of `divide` and `multiply`.
pub fn process_diffs<D: Fn(Amount, Amount) -> Amount, M: Fn(Amount, Amount) -> Amount>(
    diffs: &Vec<Diff>,
    sol_price: Amount,
    divide: D,
    multiply: M,
) -> (outcome: Result<(Amount, Amount, String), SwapError>)
    requires
        resolve(diff_views(diffs@)) matches Ok(legs) ==> priceable(
            divide,
            multiply,
            legs,
            sol_price,
        ),
    ensures
        is_quote_of(divide, multiply, diff_views(diffs@), sol_price, quote_view(outcome)),
{
    match swap_legs(diffs) {
        Ok(legs) => Ok(price_legs(legs, sol_price, divide, multiply)),
        Err(error) => Err(error),
    }
}

/// A swap is quoted exactly when it has two legs, one of them alone of the
/// reference asset, and the other with a difference that is not zero; each
/// error comes with its own reason and no other.
pub proof fn lemma_when_quoted<D: Fn(Amount, Amount) -> Amount, M: Fn(Amount, Amount) -> Amount>(
    divide: D,
    multiply: M,
    diffs: Seq<DiffView>,
    sol_price: Amount,
    outcome: Result<(Amount, Amount, Seq<char>), SwapError>,
)
    requires
        is_quote_of(divide, multiply, diffs, sol_price, outcome),
    ensures
        outcome == Err::<(Amount, Amount, Seq<char>), SwapError>(SwapError::WrongLegCount)
            <==> diffs.len() != 2,
        outcome == Err::<(Amount, Amount, Seq<char>), SwapError>(SwapError::NonReferenceSwap)
            <==> diffs.len() == 2 && is_reference(diffs[0]) == is_reference(diffs[1]),
        outcome == Err::<(Amount, Amount, Seq<char>), SwapError>(SwapError::ZeroTradedAmount)
            <==> diffs.len() == 2 && is_reference(diffs[0]) != is_reference(diffs[1]) && (if is_reference(
            diffs[0],
        ) {
            diffs[1]
        } else {
            diffs[0]
        }).diff.is_zero_value(),
        outcome is Ok <==> resolve(diffs) is Ok,
{
}

/// Symmetry: the two legs resolve alike in either order.
pub proof fn lemma_resolve_order_independent(a: DiffView, b: DiffView)
    ensures
        resolve(seq![a, b]) == resolve(seq![b, a]),
{
}

/// Symmetry of the quote: whatever one order of the two legs may be quoted
/// at, the other order may be too; and where each operation gives one
/// result for each pair of amounts, the two orders have the same quote.
pub proof fn lemma_quote_order_independent<
    D: Fn(Amount, Amount) -> Amount,
    M: Fn(Amount, Amount) -> Amount,
>(
    divide: D,
    multiply: M,
    a: DiffView,
    b: DiffView,
    sol_price: Amount,
    forward: Result<(Amount, Amount, Seq<char>), SwapError>,
    backward: Result<(Amount, Amount, Seq<char>), SwapError>,
)
    requires
        is_quote_of(divide, multiply, seq![a, b], sol_price, forward),
        is_quote_of(divide, multiply, seq![b, a], sol_price, backward),
    ensures
        is_quote_of(divide, multiply, seq![b, a], sol_price, forward),
        is_quote_of(divide, multiply, seq![a, b], sol_price, backward),
        forward is Ok <==> backward is Ok,
        forward is Err ==> forward == backward,
        forward matches Ok(first) ==> backward matches Ok(second) && first.2 == second.2,
        (forall|x: Amount, y: Amount, r: Amount, s: Amount|
            divide.ensures((x, y), r) && divide.ensures((x, y), s) ==> r == s) && (forall|
            x: Amount,
            y: Amount,
            r: Amount,
            s: Amount,
        |
            multiply.ensures((x, y), r) && multiply.ensures((x, y), s) ==> r == s) ==> forward
            == backward,
{
    lemma_resolve_order_independent(a, b);
}

/// Rejection: two diffs of which neither is of the reference asset are not
/// a swap that is priced.
pub proof fn lemma_rejects_without_reference(diffs: Seq<DiffView>)
    requires
        diffs.len() == 2,
        !is_reference(diffs[0]),
        !is_reference(diffs[1]),
    ensures
        resolve(diffs) == Err::<SwapLegsView, SwapError>(SwapError::NonReferenceSwap),
{
}

/// Two diffs that are both of the reference asset are rejected in the same
/// way.
pub proof fn lemma_rejects_two_references(diffs: Seq<DiffView>)
    requires
        diffs.len() == 2,
        is_reference(diffs[0]),
        is_reference(diffs[1]),
    ensures
        resolve(diffs) == Err::<SwapLegsView, SwapError>(SwapError::NonReferenceSwap),
{
}

/// When a swap resolves, it has two legs, exactly one of them of the
/// reference asset; the traded asset is the other one's, and the amounts
/// are the magnitudes of the two differences, the traded one not zero.
pub proof fn lemma_resolved_legs(diffs: Seq<DiffView>)
    requires
        resolve(diffs) is Ok,
    ensures
        diffs.len() == 2,
        is_reference(diffs[0]) != is_reference(diffs[1]),
        ({
            let legs = resolve(diffs)->Ok_0;
            let sol = if is_reference(diffs[0]) { diffs[0] } else { diffs[1] };
            let token = if is_reference(diffs[0]) { diffs[1] } else { diffs[0] };
            &&& legs.coin_mint == token.mint
            &&& legs.coin_mint != WSOL_MINT_KEY_STR@
            &&& legs.sol_amount == sol.diff.magnitude()
            &&& legs.token_amount == token.diff.magnitude()
            &&& !legs.token_amount.is_zero_value()
            &&& legs.sol_amount.magnitude() == legs.sol_amount
            &&& legs.token_amount.magnitude() == legs.token_amount
        }),
{
    lemma_magnitude_idempotent(diffs[0].diff);
    lemma_magnitude_idempotent(diffs[1].diff);
}

} // verus!
