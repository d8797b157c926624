use note_ledger::note::Note;
use note_ledger::user::User;

#[test]
fn commit_exact_value() {
    let note = Note::new("BTC", 100);
    assert_eq!(note.commit(), 0xb8aa184836e90dc7);
}

#[test]
fn commit_exact_value_empty_tag() {
    let note = Note::new("", 0);
    assert_eq!(note.commit(), 0x8328807b4eb6fed);
}

#[test]
fn commit_depends_on_content_alone() {
    let a = Note::new("BTC", 100);
    let b = Note::new("BTC", 100);
    assert_eq!(a.commit(), b.commit());
    assert_eq!(a.commit(), a.clone().commit());
}

#[test]
fn commit_distinguishes_amounts_and_tags() {
    let a = Note::new("BTC", 100);
    let b = Note::new("BTC", 50);
    let c = Note::new("ETH", 100);
    assert_ne!(a.commit(), b.commit());
    assert_ne!(a.commit(), c.commit());
}

#[test]
fn commit_exact_value_unicode_tag() {
    let note = Note::new("\u{5e01}", 3);
    assert_eq!(note.commit(), 0x65e4fbd1f6b22d1c);
}

#[test]
fn note_new_holds_content() {
    let note = Note::new("BTC", 7);
    assert_eq!(note.asset_type, "BTC");
    assert_eq!(note.amount, 7);
}

#[test]
fn user_new_is_empty() {
    let user = User::new("Alice");
    assert_eq!(user.id, "Alice");
    assert!(user.notes.is_empty());
    assert_eq!(user.balance_of("BTC"), 0);
}

#[test]
fn add_note_then_remove_by_commitment() {
    let mut user = User::new("Alice");
    let note = Note::new("BTC", 100);
    let commitment = note.commit();
    user.add_note(note);
    assert_eq!(user.balance_of("BTC"), 100);
    let removed = user.remove_note(commitment);
    match removed {
        Some(n) => {
            assert_eq!(n.asset_type, "BTC");
            assert_eq!(n.amount, 100);
        }
        None => panic!("the note was present"),
    }
    assert!(user.notes.is_empty());
    assert!(user.remove_note(commitment).is_none());
}

#[test]
fn remove_note_absent_is_none() {
    let mut user = User::new("Alice");
    user.add_note(Note::new("BTC", 100));
    let other = Note::new("ETH", 1).commit();
    assert!(user.remove_note(other).is_none());
    assert_eq!(user.notes.len(), 1);
}

#[test]
fn remove_note_takes_one_of_duplicates() {
    let mut user = User::new("Alice");
    user.add_note(Note::new("BTC", 100));
    user.add_note(Note::new("BTC", 100));
    let commitment = Note::new("BTC", 100).commit();
    assert!(user.remove_note(commitment).is_some());
    assert_eq!(user.notes.len(), 1);
    assert_eq!(user.balance_of("BTC"), 100);
}

#[test]
fn merge_notes_sums_one_asset_type() {
    let mut user = User::new("Alice");
    user.add_note(Note::new("BTC", 30));
    user.add_note(Note::new("ETH", 5));
    user.add_note(Note::new("BTC", 70));
    user.merge_notes("BTC");
    assert_eq!(user.notes.len(), 2);
    assert_eq!(user.notes[0].asset_type, "ETH");
    assert_eq!(user.notes[0].amount, 5);
    assert_eq!(user.notes[1].asset_type, "BTC");
    assert_eq!(user.notes[1].amount, 100);
}

#[test]
fn merge_notes_changes_commitment() {
    let mut user = User::new("Alice");
    user.add_note(Note::new("BTC", 30));
    user.add_note(Note::new("BTC", 70));
    user.merge_notes("BTC");
    assert_eq!(user.notes.len(), 1);
    let merged_commit = user.notes[0].commit();
    assert_ne!(merged_commit, Note::new("BTC", 30).commit());
    assert_ne!(merged_commit, Note::new("BTC", 70).commit());
    assert_eq!(merged_commit, Note::new("BTC", 100).commit());
}

#[test]
fn merge_notes_twice_is_no_op() {
    let mut user = User::new("Alice");
    user.add_note(Note::new("BTC", 30));
    user.add_note(Note::new("ETH", 5));
    user.add_note(Note::new("BTC", 70));
    user.merge_notes("BTC");
    let before: Vec<(String, u64, u64)> = user
        .notes
        .iter()
        .map(|n| (n.asset_type.clone(), n.amount, n.commit()))
        .collect();
    user.merge_notes("BTC");
    let after: Vec<(String, u64, u64)> = user
        .notes
        .iter()
        .map(|n| (n.asset_type.clone(), n.amount, n.commit()))
        .collect();
    assert_eq!(before, after);
}

#[test]
fn merge_notes_without_matches_adds_nothing() {
    let mut user = User::new("Alice");
    user.add_note(Note::new("ETH", 5));
    user.merge_notes("BTC");
    assert_eq!(user.notes.len(), 1);
    assert_eq!(user.notes[0].asset_type, "ETH");
}

#[test]
fn merge_notes_zero_total_adds_nothing() {
    let mut user = User::new("Alice");
    user.add_note(Note::new("BTC", 0));
    user.add_note(Note::new("BTC", 0));
    user.merge_notes("BTC");
    assert!(user.notes.is_empty());
}

#[test]
fn balance_of_sums_matching_notes() {
    let mut user = User::new("Alice");
    user.add_note(Note::new("BTC", 1));
    user.add_note(Note::new("ETH", 10));
    user.add_note(Note::new("BTC", 2));
    assert_eq!(user.balance_of("BTC"), 3);
    assert_eq!(user.balance_of("ETH"), 10);
    assert_eq!(user.balance_of("DOGE"), 0);
}
