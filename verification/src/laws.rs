//! The ledger's global laws, stated over the same spec functions the
//! operations' contracts use and proved once and for all.

use vstd::prelude::*;

use crate::ledger::asset_total;
use crate::ledger::decide;
use crate::ledger::lemma_ok_conserves;
use crate::ledger::lemma_ok_state_facts;
use crate::ledger::ok_transition;
use crate::ledger::LedgerView;
use crate::ledger::TxError;
use crate::note::NoteView;
use crate::transaction::TransactionView;
use crate::user::lemma_tag_total_nonneg;
use crate::user::lemma_tag_total_push;
use crate::user::merged;
use crate::user::others;
use crate::user::tag_total;

verus! {

/// Conservation: across any sequence of accepted transfers, the ledger-wide
/// total of every asset type is unchanged.
pub proof fn lemma_conservation(
    states: Seq<LedgerView>,
    txs: Seq<TransactionView>,
    tag: Seq<char>,
)
    requires
        states.len() == txs.len() + 1,
        forall|k: int| 0 <= k < txs.len() ==> ok_transition(states[k], txs[k], states[k + 1]),
    ensures
        asset_total(states.last().accounts, tag) == asset_total(states.first().accounts, tag),
    decreases txs.len(),
{
    if txs.len() > 0 {
        let n = txs.len() as int;
        assert(ok_transition(states[n - 1], txs[n - 1], states[n]));
        lemma_ok_conserves(states[n - 1], txs[n - 1], tag);
        assert(forall|k: int| 0 <= k < n ==> #[trigger] states.drop_last()[k] == states[k]);
        assert(forall|k: int| 0 <= k < n - 1 ==> #[trigger] txs.drop_last()[k] == txs[k]);
        lemma_conservation(states.drop_last(), txs.drop_last(), tag);
    }
}

/// A consumed commitment stays consumed across any further accepted transfers.
pub proof fn lemma_spent_persists(states: Seq<LedgerView>, txs: Seq<TransactionView>, c: u64)
    requires
        states.len() == txs.len() + 1,
        forall|k: int| 0 <= k < txs.len() ==> ok_transition(states[k], txs[k], states[k + 1]),
        states.first().spent.contains(c),
    ensures
        states.last().spent.contains(c),
    decreases txs.len(),
{
    if txs.len() > 0 {
        assert(ok_transition(states[0], txs[0], states[1]));
        lemma_ok_state_facts(states[0], txs[0]);
        assert(forall|k: int|
            0 <= k < states.len() - 1 ==> #[trigger] states.drop_first()[k] == states[k + 1]);
        assert(forall|k: int|
            0 <= k < txs.len() - 1 ==> #[trigger] txs.drop_first()[k] == txs[k + 1]);
        lemma_spent_persists(states.drop_first(), txs.drop_first(), c);
        assert(states.drop_first().last() == states.last());
    }
}

/// No double spend: once one accepted transfer has consumed a commitment,
/// every transaction referencing that commitment is rejected as already
/// spent, at every later state of the chain.
pub proof fn lemma_no_double_spend(
    states: Seq<LedgerView>,
    txs: Seq<TransactionView>,
    k: int,
    tx2: TransactionView,
)
    requires
        states.len() == txs.len() + 1,
        forall|j: int| 0 <= j < txs.len() ==> ok_transition(states[j], txs[j], states[j + 1]),
        0 <= k < txs.len(),
        tx2.from_commit == txs[k].from_commit,
    ensures
        decide(states.last(), tx2) == Err::<(), TxError>(TxError::SourceAlreadySpent),
{
    let c = txs[k].from_commit;
    assert(ok_transition(states[k], txs[k], states[k + 1]));
    lemma_ok_state_facts(states[k], txs[k]);
    assert(states[k + 1].spent[states[k].spent.len() as int] == c);
    assert(states[k + 1].spent.contains(c));
    let tail_states = states.subrange(k + 1, states.len() as int);
    let tail_txs = txs.subrange(k + 1, txs.len() as int);
    assert(forall|j: int|
        0 <= j < tail_states.len() ==> #[trigger] tail_states[j] == states[k + 1 + j]);
    assert(forall|j: int| 0 <= j < tail_txs.len() ==> #[trigger] tail_txs[j] == txs[k + 1 + j]);
    lemma_spent_persists(tail_states, tail_txs, c);
    assert(tail_states.last() == states.last());
}

/// Notes of other asset types contribute nothing to a tag's total, and
/// keeping them a second time keeps them all.
pub proof fn lemma_others_no_tag(notes: Seq<NoteView>, tag: Seq<char>)
    ensures
        tag_total(others(notes, tag), tag) == 0,
        others(others(notes, tag), tag) == others(notes, tag),
    decreases notes.len(),
{
    if notes.len() > 0 {
        lemma_others_no_tag(notes.drop_last(), tag);
        let rest = others(notes.drop_last(), tag);
        if notes.last().asset_type != tag {
            lemma_tag_total_push(rest, tag, notes.last());
            assert(rest.push(notes.last()).drop_last() =~= rest);
        }
    }
}

/// Merge idempotence: consolidating one asset type twice in a row is, the
/// second time, a no-op — after the first pass at most one note of that type
/// remains, already holding the whole total.
pub proof fn lemma_merge_idempotent(notes: Seq<NoteView>, tag: Seq<char>)
    requires
        tag_total(notes, tag) <= u64::MAX,
    ensures
        merged(merged(notes, tag), tag) == merged(notes, tag),
{
    lemma_tag_total_nonneg(notes, tag);
    lemma_others_no_tag(notes, tag);
    let total = tag_total(notes, tag);
    let o = others(notes, tag);
    if total != 0 {
        let one = NoteView { asset_type: tag, amount: total as u64 };
        let m = o.push(one);
        lemma_tag_total_push(o, tag, one);
        assert(m.drop_last() =~= o);
        assert(merged(m, tag) == m);
    }
}

} // verus!
