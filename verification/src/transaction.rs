//! Transactions: value-transfer intents.
//!
//! A transaction names the sender it is authorized to debit, references the
//! source note only through its commitment, and carries the destination note
//! in the clear together with that note's implied commitment. It is pure
//! data; the validator alone gives it effect.

use vstd::prelude::*;

use crate::note::commitment_of;
use crate::note::Note;
use crate::note::NoteView;

verus! {

/// The content of a transaction.
pub struct TransactionView {
    pub sender: Seq<char>,
    pub from_commit: u64,
    pub to: Seq<char>,
    pub to_note: NoteView,
    pub to_commit: u64,
}

/// An intent to consume the note committed to by `from_commit`, debiting
/// `sender`, and to deliver `to_note` to the account named `to`.
pub struct Transaction {
    pub sender: String,
    pub from_commit: u64,
    pub to: String,
    pub to_note: Note,
    pub to_commit: u64,
}

impl View for Transaction {
    type V = TransactionView;

    open spec fn view(&self) -> TransactionView {
        TransactionView {
            sender: self.sender@,
            from_commit: self.from_commit,
            to: self.to@,
            to_note: self.to_note@,
            to_commit: self.to_commit,
        }
    }
}

impl Transaction {
    /// Builds a transaction from the sender's identity, the source note, the
    /// recipient's identity and the destination note. Both commitments are
    /// computed from the notes' content at creation time.
    pub fn new(sender: &str, from: &Note, to: &str, to_note: &Note) -> (t: Transaction)
        ensures
            t@.sender == sender@,
            t@.from_commit == commitment_of(from@),
            t@.to == to@,
            t@.to_note == to_note@,
            t@.to_commit == commitment_of(to_note@),
    {
        Transaction {
            sender: sender.to_owned(),
            from_commit: from.commit(),
            to: to.to_owned(),
            to_note: to_note.clone(),
            to_commit: to_note.commit(),
        }
    }
}

} // verus!
