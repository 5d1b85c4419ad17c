//! Reconciling two balance snapshots into per-asset changes.

use vstd::hash_map::StringHashMap;
use vstd::prelude::*;

use crate::amount::Amount;
use crate::balance::{balances, holdings, is_latest, lemma_holdings, Balance, TokenBalanceInfo};

verus! {

/// The change of one asset between two snapshots.
#[derive(Clone, Debug, PartialEq, Eq)]
pub struct Diff {
    pub mint: String,
    pub pre_amount: Amount,
    pub post_amount: Amount,
    pub diff: Amount,
    pub owner: String,
}

/// A `Diff` with its strings read as sequences of characters.
pub struct DiffView {
    pub mint: Seq<char>,
    pub pre_amount: Amount,
    pub post_amount: Amount,
    pub diff: Amount,
    pub owner: Seq<char>,
}

impl View for Diff {
    type V = DiffView;

    open spec fn view(&self) -> DiffView {
        DiffView {
            mint: self.mint@,
            pre_amount: self.pre_amount,
            post_amount: self.post_amount,
            diff: self.diff,
            owner: self.owner@,
        }
    }
}

/// An asset held in both snapshots, with the two amounts and the owner that
/// the earlier snapshot records.
pub struct Matched {
    pub mint: Seq<char>,
    pub pre_amount: Amount,
    pub post_amount: Amount,
    pub owner: Seq<char>,
}

/// What record `p` of `pre` contributes when its asset is held in `post`.
pub open spec fn pairing(pre: Seq<Balance>, post: Seq<Balance>, p: int) -> Matched {
    Matched {
        mint: pre[p].mint,
        pre_amount: pre[p].ui_amount->0,
        post_amount: holdings(post)[pre[p].mint].amount,
        owner: pre[p].owner,
    }
}

/// Whether record `p` of `pre` decides an earlier holding of an asset that
/// `post` holds too.
pub open spec fn contributes(pre: Seq<Balance>, post: Seq<Balance>, p: int) -> bool {
    is_latest(pre, p) && holdings(post).dom().contains(pre[p].mint)
}

/// The assets among the first `n` records of `pre` that both snapshots hold,
/// each at the place of the record that decides its earlier holding.
pub open spec fn matched_upto(pre: Seq<Balance>, post: Seq<Balance>, n: nat) -> Seq<Matched>
    decreases n,
{
    if n == 0 {
        Seq::empty()
    } else {
        let before = matched_upto(pre, post, (n - 1) as nat);
        if contributes(pre, post, n - 1) {
            before.push(pairing(pre, post, n - 1))
        } else {
            before
        }
    }
}

/// The assets that both snapshots hold, in the order in which the records
/// that decide the earlier holdings stand in `pre`.
pub open spec fn matched(pre: Seq<Balance>, post: Seq<Balance>) -> Seq<Matched> {
    matched_upto(pre, post, pre.len())
}

/// Whether `diff` reports `pair`, with a difference that `subtract` gives
/// for the later amount and the earlier one.
pub open spec fn reports<F: Fn(Amount, Amount) -> Amount>(
    subtract: F,
    diff: DiffView,
    pair: Matched,
) -> bool {
    &&& diff.mint == pair.mint
    &&& diff.pre_amount == pair.pre_amount
    &&& diff.post_amount == pair.post_amount
    &&& diff.owner == pair.owner
    &&& subtract.ensures((pair.post_amount, pair.pre_amount), diff.diff)
}

/// Whether `subtract` can be applied to the two amounts of every matched
/// asset.
pub open spec fn subtracts<F: Fn(Amount, Amount) -> Amount>(
    subtract: F,
    pre: Seq<Balance>,
    post: Seq<Balance>,
) -> bool {
    forall|i: int|
        0 <= i < matched(pre, post).len() ==> subtract.requires(
            ((#[trigger] matched(pre, post)[i]).post_amount, matched(pre, post)[i].pre_amount),
        )
}

/// Whether `diffs` is a reconciliation of the two snapshots under
/// `subtract`: one entry for each matched asset, in order.
pub open spec fn reconciles<F: Fn(Amount, Amount) -> Amount>(
    subtract: F,
    pre: Seq<Balance>,
    post: Seq<Balance>,
    diffs: Seq<DiffView>,
) -> bool {
    &&& diffs.len() == matched(pre, post).len()
    &&& forall|i: int|
        0 <= i < diffs.len() ==> reports(subtract, #[trigger] diffs[i], matched(pre, post)[i])
}

/// The views of a sequence of diffs.
pub open spec fn diff_views(diffs: Seq<Diff>) -> Seq<DiffView> {
    Seq::new(diffs.len(), |i: int| diffs[i]@)
}

/// For each asset, the place and the amount of the latest record that has
/// one.
spec fn latest_entries(snapshot: Seq<Balance>) -> Map<Seq<char>, (usize, Amount)>
    decreases snapshot.len(),
{
    if snapshot.len() == 0 {
        Map::empty()
    } else {
        let earlier = latest_entries(snapshot.drop_last());
        let record = snapshot.last();
        match record.ui_amount {
            Some(amount) => earlier.insert(record.mint, ((snapshot.len() - 1) as usize, amount)),
            None => earlier,
        }
    }
}

proof fn lemma_latest_entries(snapshot: Seq<Balance>)
    requires
        snapshot.len() <= usize::MAX,
    ensures
        latest_entries(snapshot).dom() == holdings(snapshot).dom(),
        forall|mint: Seq<char>| #[trigger]
            latest_entries(snapshot).dom().contains(mint) ==> {
                let (i, amount) = latest_entries(snapshot)[mint];
                &&& is_latest(snapshot, i as int)
                &&& snapshot[i as int].mint == mint
                &&& snapshot[i as int].ui_amount == Some(amount)
                &&& holdings(snapshot)[mint].amount == amount
            },
    decreases snapshot.len(),
{
    if snapshot.len() > 0 {
        let earlier = snapshot.drop_last();
        let last = snapshot.len() - 1;
        let record = snapshot.last();
        lemma_latest_entries(earlier);
        assert(latest_entries(snapshot).dom() =~= holdings(snapshot).dom());
        assert forall|mint: Seq<char>| #[trigger]
            latest_entries(snapshot).dom().contains(mint) implies {
            let (i, amount) = latest_entries(snapshot)[mint];
            &&& is_latest(snapshot, i as int)
            &&& snapshot[i as int].mint == mint
            &&& snapshot[i as int].ui_amount == Some(amount)
            &&& holdings(snapshot)[mint].amount == amount
        } by {
            if record.ui_amount is Some && record.mint == mint {
                assert(is_latest(snapshot, last));
            } else {
                assert(latest_entries(earlier).dom().contains(mint));
                let (i, amount) = latest_entries(earlier)[mint];
                assert(earlier[i as int] == snapshot[i as int]);
                assert forall|j: int|
                    i < j < snapshot.len() && snapshot[j].ui_amount is Some implies #[trigger] snapshot[j].mint
                    != snapshot[i as int].mint by {
                    if j < last {
                        assert(earlier[j] == snapshot[j]);
                    }
                }
            }
        }
    } else {
        assert(latest_entries(snapshot).dom() =~= holdings(snapshot).dom());
    }
}

/// Enters each record that has an amount under its asset, a later record
/// replacing an earlier one.
fn index_snapshot<T: TokenBalanceInfo>(records: &[T]) -> (index: StringHashMap<(usize, Amount)>)
    ensures
        index@ == latest_entries(balances(records@)),
        records@.len() <= usize::MAX,
{
    let ghost snapshot = balances(records@);
    let mut index: StringHashMap<(usize, Amount)> = StringHashMap::new();
    let mut i: usize = 0;
    while i < records.len()
        invariant
            i <= records@.len(),
            snapshot == balances(records@),
            index@ == latest_entries(snapshot.take(i as int)),
        decreases records@.len() - i,
    {
        let record = &records[i];
        proof {
            assert(snapshot.take(i + 1).drop_last() == snapshot.take(i as int));
            assert(snapshot.take(i + 1).last() == record.balance());
        }
        if let Some(amount) = record.get_ui_amount() {
            index.insert(record.get_mint().to_owned(), (i, amount));
        }
        i += 1;
    }
    proof {
        assert(snapshot.take(i as int) == snapshot);
    }
    index
}

/// Reconciles two snapshots of token balances.
///
/// Each snapshot is read as holdings by asset: records without an amount are
/// passed over, and of several records for one asset the last decides. One
/// `Diff` comes out for each asset held in both snapshots, with the owner of
/// the earlier holding and with the difference that `subtract` returns for
/// the later amount and the earlier one. The diffs stand in the order of the
/// deciding records in `pre_balances`.
pub fn get_token_balance_diff<T: TokenBalanceInfo, F: Fn(Amount, Amount) -> Amount>(
    pre_balances: &[T],
    post_balances: &[T],
    subtract: F,
) -> (diffs: Vec<Diff>)
    requires
        subtracts(subtract, balances(pre_balances@), balances(post_balances@)),
    ensures
        reconciles(
            subtract,
            balances(pre_balances@),
            balances(post_balances@),
            diff_views(diffs@),
        ),
{
    let ghost pre = balances(pre_balances@);
    let ghost post = balances(post_balances@);
    let pre_index = index_snapshot(pre_balances);
    let post_index = index_snapshot(post_balances);
    let pre_len = pre_balances.len();
    proof {
        lemma_latest_entries(pre);
        lemma_latest_entries(post);
        lemma_holdings(pre);
    }
    let mut diffs: Vec<Diff> = Vec::new();
    let mut i: usize = 0;
    while i < pre_len
        invariant
            i <= pre.len(),
            pre_len == pre.len(),
            pre == balances(pre_balances@),
            post == balances(post_balances@),
            pre_index@ == latest_entries(pre),
            post_index@ == latest_entries(post),
            latest_entries(post).dom() == holdings(post).dom(),
            forall|mint: Seq<char>| #[trigger]
                latest_entries(post).dom().contains(mint) ==> holdings(post)[mint].amount
                    == latest_entries(post)[mint].1,
            forall|mint: Seq<char>| #[trigger]
                latest_entries(pre).dom().contains(mint) ==> is_latest(
                    pre,
                    latest_entries(pre)[mint].0 as int,
                ) && pre[latest_entries(pre)[mint].0 as int].mint == mint,
            forall|k: int|
                0 <= k < pre.len() && pre[k].ui_amount is Some ==> latest_entries(
                    pre,
                ).dom().contains(#[trigger] pre[k].mint),
            subtracts(subtract, pre, post),
            diffs@.len() == matched_upto(pre, post, i as nat).len(),
            forall|k: int|
                0 <= k < diffs@.len() ==> reports(
                    subtract,
                    #[trigger] diffs@[k]@,
                    matched_upto(pre, post, i as nat)[k],
                ),
        decreases pre.len() - i,
    {
        let record = &pre_balances[i];
        assert(pre[i as int] == record.balance());
        let ghost before = matched_upto(pre, post, i as nat);
        let ghost after = matched_upto(pre, post, (i + 1) as nat);
        proof {
            lemma_matched_prefix(pre, post, (i + 1) as nat, pre.len());
        }
        let ghost mut emitted = false;
        if let Some(pre_amount) = record.get_ui_amount() {
            let mint = record.get_mint();
            if let Some(entry) = pre_index.get(mint) {
                if entry.0 == i {
                    if let Some(later) = post_index.get(mint) {
                        let post_amount = later.1;
                        assert(after == before.push(pairing(pre, post, i as int)));
                        assert(matched(pre, post)[before.len() as int] == after[before.len() as int]);
                        let diff = subtract(post_amount, pre_amount);
                        diffs.push(
                            Diff {
                                mint: mint.to_owned(),
                                pre_amount,
                                post_amount,
                                diff,
                                owner: record.get_owner().to_owned(),
                            },
                        );
                        proof {
                            emitted = true;
                        }
                    }
                } else {
                    assert(!is_latest(pre, i as int)) by {
                        let k = entry.0 as int;
                        assert(is_latest(pre, k));
                        if k < i {
                            assert(pre[i as int].mint != pre[k].mint);
                        } else {
                            assert(pre[k].mint == pre[i as int].mint);
                        }
                    }
                }
            }
        }
        proof {
            if !emitted {
                assert(after == before);
            }
        }
        i += 1;
    }
    proof {
        let views = diff_views(diffs@);
        assert forall|k: int| 0 <= k < views.len() implies reports(
            subtract,
            #[trigger] views[k],
            matched(pre, post)[k],
        ) by {
            assert(views[k] == diffs@[k]@);
        }
    }
    diffs
}

/// The matches among the first `n` records stay where they are when more
/// records are looked at.
pub proof fn lemma_matched_prefix(pre: Seq<Balance>, post: Seq<Balance>, n: nat, m: nat)
    requires
        n <= m,
    ensures
        matched_upto(pre, post, n).len() <= matched_upto(pre, post, m).len(),
        forall|k: int|
            0 <= k < matched_upto(pre, post, n).len() ==> #[trigger] matched_upto(pre, post, m)[k]
                == matched_upto(pre, post, n)[k],
    decreases m,
{
    if n < m {
        lemma_matched_prefix(pre, post, n, (m - 1) as nat);
    }
}

/// Each match among the first `n` records comes from a record before `n`
/// that contributes it.
proof fn lemma_matched_origin(pre: Seq<Balance>, post: Seq<Balance>, n: nat, k: int) -> (p: int)
    requires
        0 <= k < matched_upto(pre, post, n).len(),
    ensures
        0 <= p < n,
        contributes(pre, post, p),
        matched_upto(pre, post, n)[k] == pairing(pre, post, p),
    decreases n,
{
    let before = matched_upto(pre, post, (n - 1) as nat);
    if k < before.len() {
        lemma_matched_origin(pre, post, (n - 1) as nat, k)
    } else {
        n - 1
    }
}

/// Every match names an asset that both snapshots hold, with the amounts
/// and the owner that the holdings record.
pub proof fn lemma_matched_are_held(pre: Seq<Balance>, post: Seq<Balance>, k: int)
    requires
        0 <= k < matched(pre, post).len(),
    ensures
        ({
            let pair = matched(pre, post)[k];
            &&& holdings(pre).dom().contains(pair.mint)
            &&& holdings(post).dom().contains(pair.mint)
            &&& pair.pre_amount == holdings(pre)[pair.mint].amount
            &&& pair.owner == holdings(pre)[pair.mint].owner
            &&& pair.post_amount == holdings(post)[pair.mint].amount
        }),
{
    let p = lemma_matched_origin(pre, post, pre.len(), k);
    lemma_holdings(pre);
}

/// Every asset that both snapshots hold is matched: the result names the
/// place of its match.
pub proof fn lemma_held_are_matched(pre: Seq<Balance>, post: Seq<Balance>, mint: Seq<char>) -> (k:
    int)
    requires
        holdings(pre).dom().contains(mint),
        holdings(post).dom().contains(mint),
    ensures
        0 <= k < matched(pre, post).len(),
        matched(pre, post)[k].mint == mint,
{
    lemma_holdings(pre);
    let p = choose|p: int| is_latest(pre, p) && pre[p].mint == mint;
    let upto = matched_upto(pre, post, (p + 1) as nat);
    assert(upto.last() == pairing(pre, post, p));
    lemma_matched_prefix(pre, post, (p + 1) as nat, pre.len());
    upto.len() - 1
}

/// No asset is matched twice.
pub proof fn lemma_matched_once(pre: Seq<Balance>, post: Seq<Balance>, j: int, k: int)
    requires
        0 <= j < k < matched(pre, post).len(),
    ensures
        matched(pre, post)[j].mint != matched(pre, post)[k].mint,
{
    lemma_matched_once_upto(pre, post, pre.len(), j, k);
}

proof fn lemma_matched_once_upto(pre: Seq<Balance>, post: Seq<Balance>, n: nat, j: int, k: int)
    requires
        0 <= j < k < matched_upto(pre, post, n).len(),
    ensures
        matched_upto(pre, post, n)[j].mint != matched_upto(pre, post, n)[k].mint,
    decreases n,
{
    let before = matched_upto(pre, post, (n - 1) as nat);
    if k < before.len() {
        lemma_matched_once_upto(pre, post, (n - 1) as nat, j, k);
    } else {
        let p = lemma_matched_origin(pre, post, (n - 1) as nat, j);
        assert(is_latest(pre, p));
        assert(pre[n - 1].mint != pre[p].mint);
    }
}

/// Diff correctness: for an asset that the earlier snapshot holds at `x` and
/// the later one at `y`, a reconciliation holds exactly one diff; it records
/// `x`, `y` and the owner of the earlier holding, and its difference is what
/// `subtract` gives for `y` and `x`. The result names the diff's place.
pub proof fn lemma_diff_of_held_asset<F: Fn(Amount, Amount) -> Amount>(
    subtract: F,
    pre: Seq<Balance>,
    post: Seq<Balance>,
    diffs: Seq<DiffView>,
    mint: Seq<char>,
) -> (k: int)
    requires
        reconciles(subtract, pre, post, diffs),
        holdings(pre).dom().contains(mint),
        holdings(post).dom().contains(mint),
    ensures
        0 <= k < diffs.len(),
        diffs[k].mint == mint,
        diffs[k].pre_amount == holdings(pre)[mint].amount,
        diffs[k].post_amount == holdings(post)[mint].amount,
        diffs[k].owner == holdings(pre)[mint].owner,
        subtract.ensures((holdings(post)[mint].amount, holdings(pre)[mint].amount), diffs[k].diff),
        forall|j: int| 0 <= j < diffs.len() && j != k ==> (#[trigger] diffs[j]).mint != mint,
{
    let k = lemma_held_are_matched(pre, post, mint);
    lemma_matched_are_held(pre, post, k);
    assert(reports(subtract, diffs[k], matched(pre, post)[k]));
    assert forall|j: int| 0 <= j < diffs.len() && j != k implies (#[trigger] diffs[j]).mint
        != mint by {
        assert(reports(subtract, diffs[j], matched(pre, post)[j]));
        if j < k {
            lemma_matched_once(pre, post, j, k);
        } else {
            lemma_matched_once(pre, post, k, j);
        }
    }
    k
}

/// Dropping what is missing: an asset that one of the snapshots names in no
/// record with an amount has no diff in a reconciliation.
pub proof fn lemma_no_diff_for_missing_asset<F: Fn(Amount, Amount) -> Amount>(
    subtract: F,
    pre: Seq<Balance>,
    post: Seq<Balance>,
    diffs: Seq<DiffView>,
    mint: Seq<char>,
)
    requires
        reconciles(subtract, pre, post, diffs),
        (forall|i: int| 0 <= i < pre.len() && pre[i].mint == mint ==> pre[i].ui_amount is None)
            || (forall|i: int|
            0 <= i < post.len() && post[i].mint == mint ==> post[i].ui_amount is None),
    ensures
        forall|k: int| 0 <= k < diffs.len() ==> (#[trigger] diffs[k]).mint != mint,
{
    lemma_holdings(pre);
    lemma_holdings(post);
    assert forall|k: int| 0 <= k < diffs.len() implies (#[trigger] diffs[k]).mint != mint by {
        assert(reports(subtract, diffs[k], matched(pre, post)[k]));
        lemma_matched_are_held(pre, post, k);
        if diffs[k].mint == mint {
            let i = choose|i: int| is_latest(pre, i) && pre[i].mint == mint;
            let j = choose|j: int| is_latest(post, j) && post[j].mint == mint;
        }
    }
}

/// Idempotence: two reconciliations of the same snapshots agree on every
/// asset, amount and owner, place by place; where `subtract` gives one
/// result for each pair of amounts, they are the same sequence.
pub proof fn lemma_reconciliation_is_unique<F: Fn(Amount, Amount) -> Amount>(
    subtract: F,
    pre: Seq<Balance>,
    post: Seq<Balance>,
    first: Seq<DiffView>,
    second: Seq<DiffView>,
)
    requires
        reconciles(subtract, pre, post, first),
        reconciles(subtract, pre, post, second),
    ensures
        first.len() == second.len(),
        forall|k: int|
            0 <= k < first.len() ==> {
                &&& (#[trigger] first[k]).mint == second[k].mint
                &&& first[k].pre_amount == second[k].pre_amount
                &&& first[k].post_amount == second[k].post_amount
                &&& first[k].owner == second[k].owner
            },
        (forall|a: Amount, b: Amount, x: Amount, y: Amount|
            subtract.ensures((a, b), x) && subtract.ensures((a, b), y) ==> x == y) ==> first
            == second,
{
    assert forall|k: int| 0 <= k < first.len() implies {
        &&& (#[trigger] first[k]).mint == second[k].mint
        &&& first[k].pre_amount == second[k].pre_amount
        &&& first[k].post_amount == second[k].post_amount
        &&& first[k].owner == second[k].owner
    } by {
        assert(reports(subtract, first[k], matched(pre, post)[k]));
        assert(reports(subtract, second[k], matched(pre, post)[k]));
    }
    if forall|a: Amount, b: Amount, x: Amount, y: Amount|
        subtract.ensures((a, b), x) && subtract.ensures((a, b), y) ==> x == y {
        assert forall|k: int| 0 <= k < first.len() implies first[k] == second[k] by {
            assert(reports(subtract, first[k], matched(pre, post)[k]));
            assert(reports(subtract, second[k], matched(pre, post)[k]));
        }
        assert(first =~= second);
    }
}

} // verus!
