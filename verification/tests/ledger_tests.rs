use note_ledger::ledger::{Ledger, TxError};
use note_ledger::note::Note;
use note_ledger::transaction::Transaction;
use note_ledger::user::User;

fn ledger_alice_bob(alice_notes: &[(&str, u64)]) -> Ledger {
    let mut ledger = Ledger::new();
    let mut alice = User::new("Alice");
    for (tag, amount) in alice_notes {
        alice.add_note(Note::new(tag, *amount));
    }
    ledger.insert_account(alice);
    ledger.insert_account(User::new("Bob"));
    ledger
}

fn total_of(ledger: &Ledger, tag: &str) -> u64 {
    ledger.accounts.iter().map(|u| u.balance_of(tag)).sum()
}

#[test]
fn transaction_new_computes_commitments() {
    let source = Note::new("BTC", 100);
    let dest = Note::new("BTC", 50);
    let tx = Transaction::new("Alice", &source, "Bob", &dest);
    assert_eq!(tx.sender, "Alice");
    assert_eq!(tx.to, "Bob");
    assert_eq!(tx.from_commit, source.commit());
    assert_eq!(tx.to_commit, dest.commit());
    assert_eq!(tx.to_note.asset_type, "BTC");
    assert_eq!(tx.to_note.amount, 50);
}

#[test]
fn insert_and_get_account() {
    let mut ledger = Ledger::new();
    ledger.insert_account(User::new("Alice"));
    assert!(ledger.get_account("Alice").is_some());
    assert!(ledger.get_account("Bob").is_none());
}

#[test]
fn insert_account_replaces_same_identity() {
    let mut ledger = Ledger::new();
    let mut alice = User::new("Alice");
    alice.add_note(Note::new("BTC", 1));
    ledger.insert_account(alice);
    ledger.insert_account(User::new("Alice"));
    assert_eq!(ledger.accounts.len(), 1);
    assert!(ledger.get_account("Alice").unwrap().notes.is_empty());
}

#[test]
fn transfer_with_change() {
    // Alice holds {BTC, 100} and sends {BTC, 50} to Bob: the source note is
    // consumed, Bob receives the destination note, and {BTC, 50} change
    // returns to Alice.
    let mut ledger = ledger_alice_bob(&[("BTC", 100)]);
    let source = Note::new("BTC", 100);
    let tx = Transaction::new("Alice", &source, "Bob", &Note::new("BTC", 50));
    assert_eq!(ledger.apply(&tx), Ok(()));
    let alice = ledger.get_account("Alice").unwrap();
    assert_eq!(alice.notes.len(), 1);
    assert_eq!(alice.notes[0].amount, 50);
    assert_eq!(alice.notes[0].asset_type, "BTC");
    assert!(alice.notes.iter().all(|n| n.commit() != source.commit()));
    let bob = ledger.get_account("Bob").unwrap();
    assert_eq!(bob.notes.len(), 1);
    assert_eq!(bob.notes[0].amount, 50);
    assert_eq!(bob.notes[0].asset_type, "BTC");
}

#[test]
fn transfer_of_full_amount_leaves_no_change() {
    let mut ledger = ledger_alice_bob(&[("BTC", 100)]);
    let tx = Transaction::new("Alice", &Note::new("BTC", 100), "Bob", &Note::new("BTC", 100));
    assert_eq!(ledger.apply(&tx), Ok(()));
    assert!(ledger.get_account("Alice").unwrap().notes.is_empty());
    assert_eq!(ledger.get_account("Bob").unwrap().balance_of("BTC"), 100);
}

#[test]
fn source_not_found_leaves_ledger_unchanged() {
    // A transaction referencing a commitment not present anywhere is rejected
    // and the ledger is unchanged.
    let mut ledger = ledger_alice_bob(&[("BTC", 100)]);
    let tx = Transaction::new("Alice", &Note::new("BTC", 7), "Bob", &Note::new("BTC", 7));
    assert_eq!(ledger.apply(&tx), Err(TxError::SourceNotFound));
    let alice = ledger.get_account("Alice").unwrap();
    assert_eq!(alice.notes.len(), 1);
    assert_eq!(alice.notes[0].amount, 100);
    assert!(ledger.get_account("Bob").unwrap().notes.is_empty());
    assert!(ledger.spent.is_empty());
}

#[test]
fn double_spend_rejected() {
    // Two transactions reference the same source commitment: exactly one
    // succeeds, the other is rejected as already spent.
    let mut ledger = ledger_alice_bob(&[("BTC", 100)]);
    let source = Note::new("BTC", 100);
    let tx1 = Transaction::new("Alice", &source, "Bob", &Note::new("BTC", 50));
    let tx2 = Transaction::new("Alice", &source, "Bob", &Note::new("BTC", 100));
    assert_eq!(ledger.apply(&tx1), Ok(()));
    assert_eq!(ledger.apply(&tx2), Err(TxError::SourceAlreadySpent));
    assert_eq!(ledger.get_account("Bob").unwrap().balance_of("BTC"), 50);
}

#[test]
fn spent_commitment_stays_spent() {
    let mut ledger = ledger_alice_bob(&[("BTC", 100), ("ETH", 4)]);
    let source = Note::new("BTC", 100);
    let tx1 = Transaction::new("Alice", &source, "Bob", &Note::new("BTC", 100));
    assert_eq!(ledger.apply(&tx1), Ok(()));
    let tx2 = Transaction::new("Alice", &Note::new("ETH", 4), "Bob", &Note::new("ETH", 4));
    assert_eq!(ledger.apply(&tx2), Ok(()));
    let tx3 = Transaction::new("Alice", &source, "Bob", &Note::new("BTC", 1));
    assert_eq!(ledger.apply(&tx3), Err(TxError::SourceAlreadySpent));
}

#[test]
fn duplicate_content_note_cannot_reuse_commitment() {
    // Two notes with identical content share one commitment; after it is
    // consumed once, the commitment is spent for good.
    let mut ledger = ledger_alice_bob(&[("BTC", 100), ("BTC", 100)]);
    let source = Note::new("BTC", 100);
    let tx1 = Transaction::new("Alice", &source, "Bob", &Note::new("BTC", 100));
    assert_eq!(ledger.apply(&tx1), Ok(()));
    assert_eq!(ledger.get_account("Alice").unwrap().balance_of("BTC"), 100);
    let tx2 = Transaction::new("Alice", &source, "Bob", &Note::new("BTC", 100));
    assert_eq!(ledger.apply(&tx2), Err(TxError::SourceAlreadySpent));
}

#[test]
fn unauthorized_sender_rejected() {
    let mut ledger = ledger_alice_bob(&[("BTC", 100)]);
    let tx = Transaction::new("Bob", &Note::new("BTC", 100), "Bob", &Note::new("BTC", 50));
    assert_eq!(ledger.apply(&tx), Err(TxError::UnauthorizedSender));
    assert_eq!(ledger.get_account("Alice").unwrap().balance_of("BTC"), 100);
    assert!(ledger.spent.is_empty());
}

#[test]
fn recipient_not_found_rejected() {
    let mut ledger = ledger_alice_bob(&[("BTC", 100)]);
    let tx = Transaction::new("Alice", &Note::new("BTC", 100), "Carol", &Note::new("BTC", 50));
    assert_eq!(ledger.apply(&tx), Err(TxError::RecipientNotFound));
    assert_eq!(ledger.get_account("Alice").unwrap().balance_of("BTC"), 100);
    assert!(ledger.spent.is_empty());
}

#[test]
fn unbalanced_wrong_asset_type_rejected() {
    let mut ledger = ledger_alice_bob(&[("BTC", 100)]);
    let tx = Transaction::new("Alice", &Note::new("BTC", 100), "Bob", &Note::new("ETH", 50));
    assert_eq!(ledger.apply(&tx), Err(TxError::UnbalancedTransaction));
    assert_eq!(ledger.get_account("Alice").unwrap().balance_of("BTC"), 100);
}

#[test]
fn unbalanced_excessive_amount_rejected() {
    let mut ledger = ledger_alice_bob(&[("BTC", 100)]);
    let tx = Transaction::new("Alice", &Note::new("BTC", 100), "Bob", &Note::new("BTC", 150));
    assert_eq!(ledger.apply(&tx), Err(TxError::UnbalancedTransaction));
    assert_eq!(ledger.get_account("Alice").unwrap().balance_of("BTC"), 100);
}

#[test]
fn sender_is_checked_before_recipient() {
    let mut ledger = ledger_alice_bob(&[("BTC", 100)]);
    let tx = Transaction::new("Bob", &Note::new("BTC", 100), "Carol", &Note::new("BTC", 50));
    assert_eq!(ledger.apply(&tx), Err(TxError::UnauthorizedSender));
}

#[test]
fn recipient_is_checked_before_balance() {
    let mut ledger = ledger_alice_bob(&[("BTC", 100)]);
    let tx = Transaction::new("Alice", &Note::new("BTC", 100), "Carol", &Note::new("ETH", 999));
    assert_eq!(ledger.apply(&tx), Err(TxError::RecipientNotFound));
}

#[test]
fn transfer_to_self_keeps_balance() {
    let mut ledger = ledger_alice_bob(&[("BTC", 100)]);
    let tx = Transaction::new("Alice", &Note::new("BTC", 100), "Alice", &Note::new("BTC", 40));
    assert_eq!(ledger.apply(&tx), Ok(()));
    let alice = ledger.get_account("Alice").unwrap();
    assert_eq!(alice.balance_of("BTC"), 100);
    assert_eq!(alice.notes.len(), 2);
}

#[test]
fn largest_amount_transfers_without_loss() {
    let mut ledger = ledger_alice_bob(&[("BTC", u64::MAX)]);
    let tx = Transaction::new("Alice", &Note::new("BTC", u64::MAX), "Bob", &Note::new("BTC", 1));
    assert_eq!(ledger.apply(&tx), Ok(()));
    assert_eq!(ledger.get_account("Alice").unwrap().balance_of("BTC"), u64::MAX - 1);
    assert_eq!(ledger.get_account("Bob").unwrap().balance_of("BTC"), 1);
}

#[test]
fn conservation_across_transfers() {
    // Across a sequence of accepted transfers, every asset type's total over
    // all accounts is unchanged.
    let mut ledger = ledger_alice_bob(&[("BTC", 100), ("ETH", 9)]);
    ledger.insert_account(User::new("Carol"));
    assert_eq!(total_of(&ledger, "BTC"), 100);
    assert_eq!(total_of(&ledger, "ETH"), 9);

    let tx1 = Transaction::new("Alice", &Note::new("BTC", 100), "Bob", &Note::new("BTC", 30));
    assert_eq!(ledger.apply(&tx1), Ok(()));
    let tx2 = Transaction::new("Bob", &Note::new("BTC", 30), "Carol", &Note::new("BTC", 10));
    assert_eq!(ledger.apply(&tx2), Ok(()));
    let tx3 = Transaction::new("Alice", &Note::new("ETH", 9), "Carol", &Note::new("ETH", 9));
    assert_eq!(ledger.apply(&tx3), Ok(()));

    assert_eq!(total_of(&ledger, "BTC"), 100);
    assert_eq!(total_of(&ledger, "ETH"), 9);
    assert_eq!(ledger.get_account("Alice").unwrap().balance_of("BTC"), 70);
    assert_eq!(ledger.get_account("Bob").unwrap().balance_of("BTC"), 20);
    assert_eq!(ledger.get_account("Carol").unwrap().balance_of("BTC"), 10);
}

#[test]
fn rejection_is_atomic() {
    // A rejected transaction leaves every account and every note exactly as
    // it was.
    let mut ledger = ledger_alice_bob(&[("BTC", 100), ("ETH", 9)]);
    let snapshot: Vec<(String, Vec<(String, u64)>)> = ledger
        .accounts
        .iter()
        .map(|u| {
            (
                u.id.clone(),
                u.notes.iter().map(|n| (n.asset_type.clone(), n.amount)).collect(),
            )
        })
        .collect();
    let txs = [
        Transaction::new("Alice", &Note::new("BTC", 7), "Bob", &Note::new("BTC", 7)),
        Transaction::new("Bob", &Note::new("BTC", 100), "Bob", &Note::new("BTC", 50)),
        Transaction::new("Alice", &Note::new("BTC", 100), "Carol", &Note::new("BTC", 50)),
        Transaction::new("Alice", &Note::new("BTC", 100), "Bob", &Note::new("ETH", 50)),
    ];
    for tx in txs.iter() {
        assert!(ledger.apply(tx).is_err());
    }
    let after: Vec<(String, Vec<(String, u64)>)> = ledger
        .accounts
        .iter()
        .map(|u| {
            (
                u.id.clone(),
                u.notes.iter().map(|n| (n.asset_type.clone(), n.amount)).collect(),
            )
        })
        .collect();
    assert_eq!(snapshot, after);
    assert!(ledger.spent.is_empty());
}
