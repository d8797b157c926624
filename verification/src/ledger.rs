//! The ledger and its validator.
//!
//! The ledger maps identities to accounts and remembers every commitment a
//! successful transfer has consumed. `apply` is the one mutating entry point
//! for transfers: it resolves the source commitment, checks the sender, the
//! recipient and the balance, and either performs the whole transfer or
//! leaves the ledger exactly as it was.

use vstd::prelude::*;

use crate::note::commitment_of;
use crate::note::Note;
use crate::note::NoteView;
use crate::transaction::Transaction;
use crate::transaction::TransactionView;
use crate::user::find_note;
use crate::user::lemma_find_note_props;
use crate::user::lemma_tag_total_push;
use crate::user::lemma_tag_total_remove;
use crate::user::tag_total;
use crate::user::User;
use crate::user::UserView;

verus! {

/// Why a transaction was rejected. Every rejection leaves the ledger unchanged.
#[derive(Clone, Copy, Debug, PartialEq, Eq, Structural)]
pub enum TxError {
    /// The source commitment resolves to no note in any account.
    SourceNotFound,
    /// The source commitment was already consumed by an earlier transfer.
    SourceAlreadySpent,
    /// No account bears the recipient identity.
    RecipientNotFound,
    /// The account owning the source note is not the transaction's sender.
    UnauthorizedSender,
    /// The destination note's asset type differs from the source note's, or
    /// its amount exceeds the source note's amount.
    UnbalancedTransaction,
}

/// The content of the ledger: the accounts, in insertion order, and the
/// commitments consumed so far.
pub struct LedgerView {
    pub accounts: Seq<UserView>,
    pub spent: Seq<u64>,
}

impl LedgerView {
    /// Identities are unique across accounts.
    pub open spec fn wf(self) -> bool {
        forall|x: int, y: int|
            0 <= x < y < self.accounts.len() ==> self.accounts[x].id != self.accounts[y].id
    }
}

/// Index of the first account holding a note with commitment `c`.
pub open spec fn find_owner(accounts: Seq<UserView>, c: u64) -> Option<int>
    decreases accounts.len(),
{
    if accounts.len() == 0 {
        None
    } else if find_note(accounts[0].notes, c) is Some {
        Some(0int)
    } else {
        match find_owner(accounts.drop_first(), c) {
            Some(a) => Some(a + 1),
            None => None,
        }
    }
}

/// What `find_owner` returns is the first account with a match; `None` means
/// no account holds a note with that commitment.
pub proof fn lemma_find_owner_props(accounts: Seq<UserView>, c: u64)
    ensures
        match find_owner(accounts, c) {
            Some(a) => 0 <= a < accounts.len() && find_note(accounts[a].notes, c) is Some
                && (forall|b: int| 0 <= b < a ==> find_note(accounts[b].notes, c) is None),
            None => forall|b: int|
                0 <= b < accounts.len() ==> find_note(accounts[b].notes, c) is None,
        },
    decreases accounts.len(),
{
    if accounts.len() > 0 && find_note(accounts[0].notes, c) is None {
        lemma_find_owner_props(accounts.drop_first(), c);
        assert(forall|b: int|
            1 <= b < accounts.len() ==> accounts.drop_first()[b - 1] == accounts[b]);
    }
}

/// A scan that saw no owner up to `a` and an owner at `a` has found the first one.
pub proof fn lemma_find_owner_at(accounts: Seq<UserView>, c: u64, a: int)
    requires
        0 <= a < accounts.len(),
        find_note(accounts[a].notes, c) is Some,
        forall|b: int| 0 <= b < a ==> find_note(accounts[b].notes, c) is None,
    ensures
        find_owner(accounts, c) == Some(a),
    decreases a,
{
    if a > 0 {
        assert(forall|b: int|
            0 <= b < accounts.drop_first().len() ==> accounts.drop_first()[b] == accounts[b + 1]);
        lemma_find_owner_at(accounts.drop_first(), c, a - 1);
    }
}

/// A scan that saw no owner anywhere finds nothing.
pub proof fn lemma_find_owner_none(accounts: Seq<UserView>, c: u64)
    requires
        forall|b: int| 0 <= b < accounts.len() ==> find_note(accounts[b].notes, c) is None,
    ensures
        find_owner(accounts, c) is None,
    decreases accounts.len(),
{
    if accounts.len() > 0 {
        assert(forall|b: int|
            0 <= b < accounts.drop_first().len() ==> accounts.drop_first()[b] == accounts[b + 1]);
        lemma_find_owner_none(accounts.drop_first(), c);
    }
}

/// Index of the first account bearing the given identity.
pub open spec fn find_account(accounts: Seq<UserView>, id: Seq<char>) -> Option<int>
    decreases accounts.len(),
{
    if accounts.len() == 0 {
        None
    } else if accounts[0].id == id {
        Some(0int)
    } else {
        match find_account(accounts.drop_first(), id) {
            Some(t) => Some(t + 1),
            None => None,
        }
    }
}

/// What `find_account` returns is the first account with that identity;
/// `None` means no account bears it.
pub proof fn lemma_find_account_props(accounts: Seq<UserView>, id: Seq<char>)
    ensures
        match find_account(accounts, id) {
            Some(t) => 0 <= t < accounts.len() && accounts[t].id == id && (forall|b: int|
                0 <= b < t ==> accounts[b].id != id),
            None => forall|b: int| 0 <= b < accounts.len() ==> accounts[b].id != id,
        },
    decreases accounts.len(),
{
    if accounts.len() > 0 && accounts[0].id != id {
        lemma_find_account_props(accounts.drop_first(), id);
        assert(forall|b: int|
            1 <= b < accounts.len() ==> accounts.drop_first()[b - 1] == accounts[b]);
    }
}

/// A scan that saw no identity match up to `t` and a match at `t` has found
/// the first one.
pub proof fn lemma_find_account_at(accounts: Seq<UserView>, id: Seq<char>, t: int)
    requires
        0 <= t < accounts.len(),
        accounts[t].id == id,
        forall|b: int| 0 <= b < t ==> accounts[b].id != id,
    ensures
        find_account(accounts, id) == Some(t),
    decreases t,
{
    if t > 0 {
        assert(forall|b: int|
            0 <= b < accounts.drop_first().len() ==> accounts.drop_first()[b] == accounts[b + 1]);
        lemma_find_account_at(accounts.drop_first(), id, t - 1);
    }
}

/// A scan that saw no identity match anywhere finds nothing.
pub proof fn lemma_find_account_none(accounts: Seq<UserView>, id: Seq<char>)
    requires
        forall|b: int| 0 <= b < accounts.len() ==> accounts[b].id != id,
    ensures
        find_account(accounts, id) is None,
    decreases accounts.len(),
{
    if accounts.len() > 0 {
        assert(forall|b: int|
            0 <= b < accounts.drop_first().len() ==> accounts.drop_first()[b] == accounts[b + 1]);
        lemma_find_account_none(accounts.drop_first(), id);
    }
}

/// Total amount of one asset type across every account of the ledger.
pub open spec fn asset_total(accounts: Seq<UserView>, tag: Seq<char>) -> int
    decreases accounts.len(),
{
    if accounts.len() == 0 {
        0
    } else {
        asset_total(accounts.drop_last(), tag) + tag_total(accounts.last().notes, tag)
    }
}

/// Replacing one account moves an asset's ledger-wide total by the difference
/// between the new and the old account totals.
pub proof fn lemma_asset_total_update(
    accounts: Seq<UserView>,
    tag: Seq<char>,
    a: int,
    u2: UserView,
)
    requires
        0 <= a < accounts.len(),
    ensures
        asset_total(accounts.update(a, u2), tag) == asset_total(accounts, tag) - tag_total(
            accounts[a].notes,
            tag,
        ) + tag_total(u2.notes, tag),
    decreases accounts.len(),
{
    if a == accounts.len() - 1 {
        assert(accounts.update(a, u2).drop_last() =~= accounts.drop_last());
        assert(accounts.update(a, u2).last() == u2);
    } else {
        assert(accounts.update(a, u2).drop_last() =~= accounts.drop_last().update(a, u2));
        assert(accounts.update(a, u2).last() == accounts.last());
        lemma_asset_total_update(accounts.drop_last(), tag, a, u2);
        assert(accounts.drop_last()[a] == accounts[a]);
    }
}

/// The validator's decision on a transaction against a ledger state, checked
/// in a fixed order: a consumed source commitment, then an unresolvable
/// source, then a sender mismatch, then a missing recipient, then an
/// unbalanced destination; otherwise the transfer is accepted.
pub open spec fn decide(l: LedgerView, tx: TransactionView) -> Result<(), TxError> {
    if l.spent.contains(tx.from_commit) {
        Err(TxError::SourceAlreadySpent)
    } else {
        match find_owner(l.accounts, tx.from_commit) {
            None => Err(TxError::SourceNotFound),
            Some(a) => if l.accounts[a].id != tx.sender {
                Err(TxError::UnauthorizedSender)
            } else {
                match find_account(l.accounts, tx.to) {
                    None => Err(TxError::RecipientNotFound),
                    Some(t) => {
                        let i = find_note(l.accounts[a].notes, tx.from_commit)->Some_0;
                        let src = l.accounts[a].notes[i];
                        if tx.to_note.asset_type != src.asset_type || tx.to_note.amount
                            > src.amount {
                            Err(TxError::UnbalancedTransaction)
                        } else {
                            Ok(())
                        }
                    },
                }
            },
        }
    }
}

/// The ledger state after an accepted transfer: the source note leaves the
/// owner's account, the destination note joins the recipient's account, the
/// change (the source amount less the destination amount, when positive)
/// returns to the owner as a fresh note, and the source commitment is
/// recorded as spent. Meaningful only when `decide` accepts.
pub open spec fn ok_state(l: LedgerView, tx: TransactionView) -> LedgerView {
    let a = find_owner(l.accounts, tx.from_commit)->Some_0;
    let t = find_account(l.accounts, tx.to)->Some_0;
    let i = find_note(l.accounts[a].notes, tx.from_commit)->Some_0;
    let src = l.accounts[a].notes[i];
    let change = (src.amount - tx.to_note.amount) as u64;
    let acc1 = l.accounts.update(
        a,
        UserView { id: l.accounts[a].id, notes: l.accounts[a].notes.remove(i) },
    );
    let acc2 = acc1.update(t, UserView { id: acc1[t].id, notes: acc1[t].notes.push(tx.to_note) });
    let acc3 = if change > 0 {
        acc2.update(
            a,
            UserView {
                id: acc2[a].id,
                notes: acc2[a].notes.push(
                    NoteView { asset_type: src.asset_type, amount: change },
                ),
            },
        )
    } else {
        acc2
    };
    LedgerView { accounts: acc3, spent: l.spent.push(tx.from_commit) }
}

/// One accepted transfer: the validator accepts `tx` against `pre` and the
/// ledger moves to `post`.
pub open spec fn ok_transition(pre: LedgerView, tx: TransactionView, post: LedgerView) -> bool {
    decide(pre, tx) is Ok && post == ok_state(pre, tx)
}

/// An accepted transfer conserves every asset's ledger-wide total: the
/// removed source amount equals the delivered amount plus the change, all in
/// the source note's own asset type.
pub proof fn lemma_ok_conserves(l: LedgerView, tx: TransactionView, tag: Seq<char>)
    requires
        decide(l, tx) is Ok,
    ensures
        asset_total(ok_state(l, tx).accounts, tag) == asset_total(l.accounts, tag),
{
    lemma_find_owner_props(l.accounts, tx.from_commit);
    lemma_find_account_props(l.accounts, tx.to);
    let a = find_owner(l.accounts, tx.from_commit)->Some_0;
    let t = find_account(l.accounts, tx.to)->Some_0;
    lemma_find_note_props(l.accounts[a].notes, tx.from_commit);
    let i = find_note(l.accounts[a].notes, tx.from_commit)->Some_0;
    let src = l.accounts[a].notes[i];
    let change = (src.amount - tx.to_note.amount) as u64;
    let u1 = UserView { id: l.accounts[a].id, notes: l.accounts[a].notes.remove(i) };
    let acc1 = l.accounts.update(a, u1);
    lemma_tag_total_remove(l.accounts[a].notes, tag, i);
    lemma_asset_total_update(l.accounts, tag, a, u1);
    let u2 = UserView { id: acc1[t].id, notes: acc1[t].notes.push(tx.to_note) };
    let acc2 = acc1.update(t, u2);
    lemma_tag_total_push(acc1[t].notes, tag, tx.to_note);
    lemma_asset_total_update(acc1, tag, t, u2);
    if change > 0 {
        let extra = NoteView { asset_type: src.asset_type, amount: change };
        let u3 = UserView { id: acc2[a].id, notes: acc2[a].notes.push(extra) };
        lemma_tag_total_push(acc2[a].notes, tag, extra);
        lemma_asset_total_update(acc2, tag, a, u3);
    }
}

/// What holds of the state an accepted transfer leads to: the source
/// commitment was unspent and is now recorded, no recorded commitment is
/// forgotten, every identity stays where it was, and every asset's
/// ledger-wide total is unchanged.
pub proof fn lemma_ok_state_facts(l: LedgerView, tx: TransactionView)
    requires
        decide(l, tx) is Ok,
    ensures
        ok_state(l, tx).spent == l.spent.push(tx.from_commit),
        !l.spent.contains(tx.from_commit),
        forall|c: u64| l.spent.contains(c) ==> ok_state(l, tx).spent.contains(c),
        ok_state(l, tx).accounts.len() == l.accounts.len(),
        forall|k: int|
            0 <= k < l.accounts.len() ==> ok_state(l, tx).accounts[k].id == l.accounts[k].id,
        l.wf() ==> ok_state(l, tx).wf(),
        forall|tag: Seq<char>|
            asset_total(ok_state(l, tx).accounts, tag) == asset_total(l.accounts, tag),
{
    lemma_find_owner_props(l.accounts, tx.from_commit);
    lemma_find_account_props(l.accounts, tx.to);
    assert forall|c: u64| l.spent.contains(c) implies ok_state(l, tx).spent.contains(c) by {
        let j = choose|j: int| 0 <= j < l.spent.len() && l.spent[j] == c;
        assert(ok_state(l, tx).spent[j] == c);
    }
    assert forall|tag: Seq<char>|
        asset_total(ok_state(l, tx).accounts, tag) == asset_total(l.accounts, tag) by {
        lemma_ok_conserves(l, tx, tag);
    }
}

/// The ledger: every account, and every commitment consumed so far.
pub struct Ledger {
    pub accounts: Vec<User>,
    pub spent: Vec<u64>,
}

impl View for Ledger {
    type V = LedgerView;

    open spec fn view(&self) -> LedgerView {
        LedgerView { accounts: self.accounts@.map_values(|u: User| u@), spent: self.spent@ }
    }
}

impl Ledger {
    /// Builds an empty ledger.
    pub fn new() -> (l: Ledger)
        ensures
            l@.accounts == Seq::<UserView>::empty(),
            l@.spent == Seq::<u64>::empty(),
            l@.wf(),
    {
        let l = Ledger { accounts: Vec::new(), spent: Vec::new() };
        proof {
            assert(l@.accounts =~= Seq::<UserView>::empty());
        }
        l
    }

    /// Whether a commitment was consumed by an earlier accepted transfer.
    pub fn is_spent(&self, c: u64) -> (b: bool)
        ensures
            b == self@.spent.contains(c),
    {
        let n: usize = self.spent.len();
        let mut i: usize = 0;
        while i < n
            invariant
                n == self.spent@.len(),
                i <= n,
                forall|j: int| 0 <= j < i ==> self@.spent[j] != c,
            decreases n - i,
        {
            if self.spent[i] == c {
                return true;
            }
            i = i + 1;
        }
        false
    }

    /// Index of the first account holding a note with commitment `c`.
    fn owner_index(&self, c: u64) -> (r: Option<usize>)
        ensures
            match r {
                Some(a) => find_owner(self@.accounts, c) == Some(a as int),
                None => find_owner(self@.accounts, c) is None,
            },
    {
        let n: usize = self.accounts.len();
        let mut a: usize = 0;
        while a < n
            invariant
                n == self.accounts@.len(),
                a <= n,
                forall|b: int| 0 <= b < a ==> find_note(self@.accounts[b].notes, c) is None,
            decreases n - a,
        {
            match self.accounts[a].find_note_index(c) {
                Some(_) => {
                    proof {
                        lemma_find_owner_at(self@.accounts, c, a as int);
                    }
                    return Some(a);
                },
                None => {},
            }
            a = a + 1;
        }
        proof {
            lemma_find_owner_none(self@.accounts, c);
        }
        None
    }

    /// Index of the first account bearing the given identity.
    fn account_index(&self, id: &str) -> (r: Option<usize>)
        ensures
            match r {
                Some(t) => find_account(self@.accounts, id@) == Some(t as int),
                None => find_account(self@.accounts, id@) is None,
            },
    {
        let key: String = id.to_owned();
        let n: usize = self.accounts.len();
        let mut t: usize = 0;
        while t < n
            invariant
                key@ == id@,
                n == self.accounts@.len(),
                t <= n,
                forall|b: int| 0 <= b < t ==> self@.accounts[b].id != id@,
            decreases n - t,
        {
            if self.accounts[t].id == key {
                proof {
                    lemma_find_account_at(self@.accounts, id@, t as int);
                }
                return Some(t);
            }
            t = t + 1;
        }
        proof {
            lemma_find_account_none(self@.accounts, id@);
        }
        None
    }

    /// Reads the account bearing the given identity, if any.
    pub fn get_account(&self, id: &str) -> (r: Option<&User>)
        ensures
            match find_account(self@.accounts, id@) {
                Some(t) => r is Some && r->Some_0@ == self@.accounts[t],
                None => r is None,
            },
    {
        match self.account_index(id) {
            Some(t) => {
                proof {
                    lemma_find_account_props(self@.accounts, id@);
                }
                Some(&self.accounts[t])
            },
            None => None,
        }
    }

    /// Removes from the account at `idx` the first note whose commitment is
    /// `c`, and returns it.
    fn take_note(&mut self, idx: usize, c: u64) -> (n: Note)
        requires
            idx < old(self)@.accounts.len(),
            find_note(old(self)@.accounts[idx as int].notes, c) is Some,
        ensures
            ({
                let i = find_note(old(self)@.accounts[idx as int].notes, c)->Some_0;
                &&& n@ == old(self)@.accounts[idx as int].notes[i]
                &&& final(self)@.accounts == old(self)@.accounts.update(
                    idx as int,
                    UserView {
                        id: old(self)@.accounts[idx as int].id,
                        notes: old(self)@.accounts[idx as int].notes.remove(i),
                    },
                )
                &&& final(self)@.spent == old(self)@.spent
            }),
    {
        let ghost pre = self@;
        let mut owner: User = self.accounts.remove(idx);
        let n: Note = match owner.remove_note(c) {
            Some(x) => x,
            None => vstd::pervasive::unreached(),
        };
        self.accounts.insert(idx, owner);
        proof {
            let i = find_note(pre.accounts[idx as int].notes, c)->Some_0;
            assert(self@.accounts =~= pre.accounts.update(
                idx as int,
                UserView {
                    id: pre.accounts[idx as int].id,
                    notes: pre.accounts[idx as int].notes.remove(i),
                },
            ));
        }
        n
    }

    /// Adds a note to the account at `idx`.
    fn give_note(&mut self, idx: usize, note: Note)
        requires
            idx < old(self)@.accounts.len(),
        ensures
            final(self)@.accounts == old(self)@.accounts.update(
                idx as int,
                UserView {
                    id: old(self)@.accounts[idx as int].id,
                    notes: old(self)@.accounts[idx as int].notes.push(note@),
                },
            ),
            final(self)@.spent == old(self)@.spent,
    {
        let ghost pre = self@;
        let ghost nv = note@;
        let mut u: User = self.accounts.remove(idx);
        u.add_note(note);
        self.accounts.insert(idx, u);
        proof {
            assert(self@.accounts =~= pre.accounts.update(
                idx as int,
                UserView {
                    id: pre.accounts[idx as int].id,
                    notes: pre.accounts[idx as int].notes.push(nv),
                },
            ));
        }
    }

    /// Applies a transfer transaction atomically. Exactly when every check
    /// passes — the source commitment is unspent and resolves to a note, the
    /// owning account is the transaction's sender, the recipient exists, and
    /// the destination note matches the source's asset type without exceeding
    /// its amount — the source note leaves the sender's account, the
    /// destination note joins the recipient's, any positive change returns to
    /// the sender as a fresh note, and the commitment is recorded as spent.
    /// On any rejection the ledger is left exactly as it was.
    pub fn apply(&mut self, tx: &Transaction) -> (r: Result<(), TxError>)
        ensures
            r == decide(old(self)@, tx@),
            r is Ok ==> ok_transition(old(self)@, tx@, final(self)@),
            r is Err ==> *final(self) == *old(self),
            r is Ok ==> forall|tag: Seq<char>|
                asset_total(final(self)@.accounts, tag) == asset_total(old(self)@.accounts, tag),
            r is Ok ==> ({
                &&& !old(self)@.spent.contains(tx@.from_commit)
                &&& final(self)@.spent == old(self)@.spent.push(tx@.from_commit)
            }),
            forall|c: u64| old(self)@.spent.contains(c) ==> final(self)@.spent.contains(c),
            old(self)@.wf() ==> final(self)@.wf(),
    {
        let ghost pre = self@;
        if self.is_spent(tx.from_commit) {
            return Err(TxError::SourceAlreadySpent);
        }
        let owner_idx: usize;
        match self.owner_index(tx.from_commit) {
            Some(a) => {
                owner_idx = a;
            },
            None => {
                return Err(TxError::SourceNotFound);
            },
        }
        proof {
            lemma_find_owner_props(pre.accounts, tx@.from_commit);
            lemma_find_note_props(pre.accounts[owner_idx as int].notes, tx@.from_commit);
        }
        let authorized = self.accounts[owner_idx].id == tx.sender;
        if !authorized {
            return Err(TxError::UnauthorizedSender);
        }
        let recip_idx: usize;
        match self.account_index(tx.to.as_str()) {
            Some(t) => {
                recip_idx = t;
            },
            None => {
                return Err(TxError::RecipientNotFound);
            },
        }
        proof {
            lemma_find_account_props(pre.accounts, tx@.to);
        }
        let note_idx: usize;
        match self.accounts[owner_idx].find_note_index(tx.from_commit) {
            Some(i) => {
                note_idx = i;
            },
            None => {
                return vstd::pervasive::unreached();
            },
        }
        let balanced = self.accounts[owner_idx].notes[note_idx].asset_type == tx.to_note.asset_type;
        let src_amount: u64 = self.accounts[owner_idx].notes[note_idx].amount;
        if !balanced || tx.to_note.amount > src_amount {
            return Err(TxError::UnbalancedTransaction);
        }
        proof {
            assert(decide(pre, tx@) is Ok);
        }
        // Remove the source note from the owning account.
        let src: Note = self.take_note(owner_idx, tx.from_commit);
        // Deliver the destination note to the recipient.
        self.give_note(recip_idx, tx.to_note.clone());
        // Return the change, if any, to the sender as a fresh note.
        let change: u64 = src_amount - tx.to_note.amount;
        if change > 0 {
            self.give_note(owner_idx, Note { asset_type: src.asset_type, amount: change });
        }
        // Record the commitment as consumed.
        self.spent.push(tx.from_commit);
        proof {
            assert(self@.accounts == ok_state(pre, tx@).accounts);
            assert(self@.spent == ok_state(pre, tx@).spent);
            assert(self@ == ok_state(pre, tx@));
            lemma_ok_state_facts(pre, tx@);
        }
        Ok(())
    }

    /// Puts an account into the ledger: replaces the account bearing the same
    /// identity, or appends a new one. Keeps identities unique.
    pub fn insert_account(&mut self, user: User)
        ensures
            final(self)@.spent == old(self)@.spent,
            match find_account(old(self)@.accounts, user@.id) {
                Some(t) => final(self)@.accounts == old(self)@.accounts.update(t, user@),
                None => final(self)@.accounts == old(self)@.accounts.push(user@),
            },
            old(self)@.wf() ==> final(self)@.wf(),
    {
        let ghost pre = self@;
        match self.account_index(user.id.as_str()) {
            Some(t) => {
                let ghost uv = user@;
                proof {
                    lemma_find_account_props(pre.accounts, uv.id);
                }
                self.accounts.remove(t);
                self.accounts.insert(t, user);
                proof {
                    assert(self@.accounts =~= pre.accounts.update(t as int, uv));
                    if pre.wf() {
                        assert(self@.wf());
                    }
                }
            },
            None => {
                let ghost uv = user@;
                self.accounts.push(user);
                proof {
                    assert(self@.accounts =~= pre.accounts.push(uv));
                    lemma_find_account_props(pre.accounts, uv.id);
                    if pre.wf() {
                        assert(self@.wf());
                    }
                }
            },
        }
    }
}

} // verus!
