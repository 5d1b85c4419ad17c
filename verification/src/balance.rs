//! Balance records and the holdings that a snapshot of them records.

use vstd::prelude::*;

use crate::amount::Amount;

verus! {

/// What the library reads from a balance record: the asset, the UI-scaled
/// amount where one is known, and the owner.
pub struct Balance {
    pub mint: Seq<char>,
    pub ui_amount: Option<Amount>,
    pub owner: Seq<char>,
}

/// Anything that can be read as a balance record.
pub trait TokenBalanceInfo {
    /// The record that this value stands for.
    spec fn balance(&self) -> Balance;

    /// The asset identifier.
    fn get_mint(&self) -> (mint: &str)
        ensures
            mint@ == self.balance().mint,
    ;

    /// The UI-scaled amount, absent when the owner holds no readable balance.
    fn get_ui_amount(&self) -> (amount: Option<Amount>)
        ensures
            amount == self.balance().ui_amount,
    ;

    /// The owner identifier.
    fn get_owner(&self) -> (owner: &str)
        ensures
            owner@ == self.balance().owner,
    ;
}

/// A token balance in its canonical shape: the owner is always named.
#[derive(Clone, Debug, PartialEq, Eq)]
pub struct TransactionTokenBalance {
    pub mint: String,
    pub ui_amount: Option<Amount>,
    pub owner: String,
}

impl TokenBalanceInfo for TransactionTokenBalance {
    open spec fn balance(&self) -> Balance {
        Balance { mint: self.mint@, ui_amount: self.ui_amount, owner: self.owner@ }
    }

    fn get_mint(&self) -> (mint: &str) {
        self.mint.as_str()
    }

    fn get_ui_amount(&self) -> (amount: Option<Amount>) {
        self.ui_amount
    }

    fn get_owner(&self) -> (owner: &str) {
        self.owner.as_str()
    }
}

/// A token balance in its display shape: the owner may be left out, and
/// then reads as the empty string.
#[derive(Clone, Debug, PartialEq, Eq)]
pub struct UiTransactionTokenBalance {
    pub mint: String,
    pub ui_amount: Option<Amount>,
    pub owner: Option<String>,
}

impl TokenBalanceInfo for UiTransactionTokenBalance {
    open spec fn balance(&self) -> Balance {
        Balance {
            mint: self.mint@,
            ui_amount: self.ui_amount,
            owner: match self.owner {
                Some(owner) => owner@,
                None => Seq::empty(),
            },
        }
    }

    fn get_mint(&self) -> (mint: &str) {
        self.mint.as_str()
    }

    fn get_ui_amount(&self) -> (amount: Option<Amount>) {
        self.ui_amount
    }

    fn get_owner(&self) -> (owner: &str) {
        match &self.owner {
            Some(owner) => owner.as_str(),
            None => {
                proof {
                    reveal_strlit("");
                    assert(""@ =~= Seq::<char>::empty());
                }
                ""
            },
        }
    }
}

/// The records that a snapshot stands for, in order.
pub open spec fn balances<T: TokenBalanceInfo>(records: Seq<T>) -> Seq<Balance> {
    Seq::new(records.len(), |i: int| records[i].balance())
}

/// What a snapshot records for one asset.
pub struct Holding {
    pub amount: Amount,
    pub owner: Seq<char>,
}

/// The holdings of a snapshot by asset: each record with an amount is
/// entered in turn, a later one for the same asset replacing the earlier.
pub open spec fn holdings(snapshot: Seq<Balance>) -> Map<Seq<char>, Holding>
    decreases snapshot.len(),
{
    if snapshot.len() == 0 {
        Map::empty()
    } else {
        let earlier = holdings(snapshot.drop_last());
        let record = snapshot.last();
        match record.ui_amount {
            Some(amount) => earlier.insert(record.mint, Holding { amount, owner: record.owner }),
            None => earlier,
        }
    }
}

/// Whether record `i` has an amount and no later record of the snapshot has
/// one for the same asset.
pub open spec fn is_latest(snapshot: Seq<Balance>, i: int) -> bool {
    &&& 0 <= i < snapshot.len()
    &&& snapshot[i].ui_amount is Some
    &&& forall|j: int|
        i < j < snapshot.len() && snapshot[j].ui_amount is Some ==> #[trigger] snapshot[j].mint
            != snapshot[i].mint
}

/// An asset is held exactly when some record names it with an amount, and
/// what is held is what the latest such record says.
pub proof fn lemma_holdings(snapshot: Seq<Balance>)
    ensures
        forall|mint: Seq<char>| #[trigger]
            holdings(snapshot).dom().contains(mint) <==> exists|i: int|
                is_latest(snapshot, i) && snapshot[i].mint == mint,
        forall|i: int|
            is_latest(snapshot, i) ==> {
                &&& holdings(snapshot).dom().contains(#[trigger] snapshot[i].mint)
                &&& holdings(snapshot)[snapshot[i].mint] == Holding {
                    amount: snapshot[i].ui_amount->0,
                    owner: snapshot[i].owner,
                }
            },
        forall|i: int|
            0 <= i < snapshot.len() && snapshot[i].ui_amount is Some ==> holdings(
                snapshot,
            ).dom().contains(#[trigger] snapshot[i].mint),
    decreases snapshot.len(),
{
    if snapshot.len() > 0 {
        let earlier = snapshot.drop_last();
        let last = snapshot.len() - 1;
        let record = snapshot.last();
        lemma_holdings(earlier);
        assert forall|i: int| is_latest(snapshot, i) implies {
            &&& holdings(snapshot).dom().contains(#[trigger] snapshot[i].mint)
            &&& holdings(snapshot)[snapshot[i].mint] == Holding {
                amount: snapshot[i].ui_amount->0,
                owner: snapshot[i].owner,
            }
        } by {
            if i < last {
                assert(earlier[i] == snapshot[i]);
                assert forall|j: int|
                    i < j < earlier.len() && earlier[j].ui_amount is Some implies #[trigger] earlier[j].mint
                    != earlier[i].mint by {
                    assert(earlier[j] == snapshot[j]);
                    assert(snapshot[j].mint != snapshot[i].mint);
                }
                assert(is_latest(earlier, i));
                if record.ui_amount is Some {
                    assert(snapshot[last].mint != snapshot[i].mint);
                }
            }
        }
        assert forall|i: int|
            0 <= i < snapshot.len() && snapshot[i].ui_amount is Some implies holdings(
            snapshot,
        ).dom().contains(#[trigger] snapshot[i].mint) by {
            if i < last {
                assert(earlier[i] == snapshot[i]);
            }
        }
        assert forall|mint: Seq<char>| #[trigger]
            holdings(snapshot).dom().contains(mint) implies exists|i: int|
            is_latest(snapshot, i) && snapshot[i].mint == mint by {
            if record.ui_amount is Some && record.mint == mint {
                assert(is_latest(snapshot, last));
            } else {
                assert(holdings(earlier).dom().contains(mint));
                let i = choose|i: int| is_latest(earlier, i) && earlier[i].mint == mint;
                assert(earlier[i] == snapshot[i]);
                assert forall|j: int|
                    i < j < snapshot.len() && snapshot[j].ui_amount is Some implies #[trigger] snapshot[j].mint
                    != snapshot[i].mint by {
                    if j < last {
                        assert(earlier[j] == snapshot[j]);
                    }
                }
                assert(is_latest(snapshot, i));
            }
        }
    }
}

} // verus!
