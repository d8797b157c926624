//! Accounts: per-identity collections of notes.
//!
//! A user owns a collection of notes. Their order carries no meaning of its
//! own, but they are kept in insertion order so that a lookup by commitment
//! resolves duplicate-content notes by a fixed deterministic tie-break: the
//! first match in insertion order.

use vstd::prelude::*;

use crate::note::commitment_of;
use crate::note::Note;
use crate::note::NoteView;

verus! {

/// The content of a user's account: its identity and its notes, in insertion order.
pub struct UserView {
    pub id: Seq<char>,
    pub notes: Seq<NoteView>,
}

/// Index of the first note (in insertion order) whose commitment is `c`,
/// or `None` when no note has that commitment.
pub open spec fn find_note(notes: Seq<NoteView>, c: u64) -> Option<int>
    decreases notes.len(),
{
    if notes.len() == 0 {
        None
    } else if commitment_of(notes[0]) == c {
        Some(0int)
    } else {
        match find_note(notes.drop_first(), c) {
            Some(i) => Some(i + 1),
            None => None,
        }
    }
}

/// What `find_note` returns is the first match: a real index bearing the
/// commitment, with no match before it; `None` means no match at all.
pub proof fn lemma_find_note_props(notes: Seq<NoteView>, c: u64)
    ensures
        match find_note(notes, c) {
            Some(i) => 0 <= i < notes.len() && commitment_of(notes[i]) == c && (forall|j: int|
                0 <= j < i ==> commitment_of(notes[j]) != c),
            None => forall|j: int| 0 <= j < notes.len() ==> commitment_of(notes[j]) != c,
        },
    decreases notes.len(),
{
    if notes.len() > 0 && commitment_of(notes[0]) != c {
        lemma_find_note_props(notes.drop_first(), c);
        assert(forall|j: int|
            1 <= j < notes.len() ==> notes.drop_first()[j - 1] == notes[j]);
    }
}

/// A scan that saw no match up to `i` and a match at `i` has found the first match.
pub proof fn lemma_find_note_at(notes: Seq<NoteView>, c: u64, i: int)
    requires
        0 <= i < notes.len(),
        commitment_of(notes[i]) == c,
        forall|j: int| 0 <= j < i ==> commitment_of(notes[j]) != c,
    ensures
        find_note(notes, c) == Some(i),
    decreases i,
{
    if i > 0 {
        assert(forall|j: int|
            0 <= j < notes.drop_first().len() ==> notes.drop_first()[j] == notes[j + 1]);
        lemma_find_note_at(notes.drop_first(), c, i - 1);
    }
}

/// A scan that saw no match anywhere finds nothing.
pub proof fn lemma_find_note_none(notes: Seq<NoteView>, c: u64)
    requires
        forall|j: int| 0 <= j < notes.len() ==> commitment_of(notes[j]) != c,
    ensures
        find_note(notes, c) is None,
    decreases notes.len(),
{
    if notes.len() > 0 {
        assert(forall|j: int|
            0 <= j < notes.drop_first().len() ==> notes.drop_first()[j] == notes[j + 1]);
        lemma_find_note_none(notes.drop_first(), c);
    }
}

/// Total amount of the notes bearing the given asset type tag.
pub open spec fn tag_total(notes: Seq<NoteView>, tag: Seq<char>) -> int
    decreases notes.len(),
{
    if notes.len() == 0 {
        0
    } else {
        tag_total(notes.drop_last(), tag) + if notes.last().asset_type == tag {
            notes.last().amount as int
        } else {
            0
        }
    }
}

/// A tag's total is never negative: every amount is unsigned.
pub proof fn lemma_tag_total_nonneg(notes: Seq<NoteView>, tag: Seq<char>)
    ensures
        tag_total(notes, tag) >= 0,
    decreases notes.len(),
{
    if notes.len() > 0 {
        lemma_tag_total_nonneg(notes.drop_last(), tag);
    }
}

/// A prefix contributes no more than the whole: amounts are unsigned.
pub proof fn lemma_tag_total_take_le(notes: Seq<NoteView>, tag: Seq<char>, i: int)
    requires
        0 <= i <= notes.len(),
    ensures
        tag_total(notes.take(i), tag) <= tag_total(notes, tag),
    decreases notes.len(),
{
    if i == notes.len() {
        assert(notes.take(i) =~= notes);
    } else {
        assert(notes.drop_last().take(i) =~= notes.take(i));
        lemma_tag_total_take_le(notes.drop_last(), tag, i);
    }
}

/// Removing one note lowers a tag's total by exactly that note's contribution.
pub proof fn lemma_tag_total_remove(notes: Seq<NoteView>, tag: Seq<char>, i: int)
    requires
        0 <= i < notes.len(),
    ensures
        tag_total(notes.remove(i), tag) == tag_total(notes, tag) - (if notes[i].asset_type == tag {
            notes[i].amount as int
        } else {
            0
        }),
    decreases notes.len(),
{
    if i == notes.len() - 1 {
        assert(notes.remove(i) =~= notes.drop_last());
    } else {
        assert(notes.remove(i).drop_last() =~= notes.drop_last().remove(i));
        assert(notes.remove(i).last() == notes.last());
        lemma_tag_total_remove(notes.drop_last(), tag, i);
        assert(notes.drop_last()[i] == notes[i]);
    }
}

/// Adding one note raises a tag's total by exactly that note's contribution.
pub proof fn lemma_tag_total_push(notes: Seq<NoteView>, tag: Seq<char>, n: NoteView)
    ensures
        tag_total(notes.push(n), tag) == tag_total(notes, tag) + (if n.asset_type == tag {
            n.amount as int
        } else {
            0
        }),
{
    assert(notes.push(n).drop_last() =~= notes);
    assert(notes.push(n).last() == n);
}

/// The notes whose asset type differs from the given tag, order kept.
pub open spec fn others(notes: Seq<NoteView>, tag: Seq<char>) -> Seq<NoteView>
    decreases notes.len(),
{
    if notes.len() == 0 {
        Seq::empty()
    } else {
        let rest = others(notes.drop_last(), tag);
        if notes.last().asset_type == tag {
            rest
        } else {
            rest.push(notes.last())
        }
    }
}

/// The account's notes after consolidating one asset type: the other notes,
/// followed by one note holding the tag's whole total, unless that total is zero.
pub open spec fn merged(notes: Seq<NoteView>, tag: Seq<char>) -> Seq<NoteView> {
    if tag_total(notes, tag) == 0 {
        others(notes, tag)
    } else {
        others(notes, tag).push(
            NoteView { asset_type: tag, amount: tag_total(notes, tag) as u64 },
        )
    }
}

/// An account: one identity and the notes it owns.
pub struct User {
    pub id: String,
    pub notes: Vec<Note>,
}

impl View for User {
    type V = UserView;

    open spec fn view(&self) -> UserView {
        UserView { id: self.id@, notes: self.notes@.map_values(|n: Note| n@) }
    }
}

impl User {
    /// Builds an account with the given identity and no notes.
    pub fn new(id: &str) -> (u: User)
        ensures
            u@.id == id@,
            u@.notes == Seq::<NoteView>::empty(),
    {
        let u = User { id: id.to_owned(), notes: Vec::new() };
        proof {
            assert(u@.notes =~= Seq::<NoteView>::empty());
        }
        u
    }

    /// Inserts a note into the account; always succeeds.
    pub fn add_note(&mut self, note: Note)
        ensures
            final(self)@.id == old(self)@.id,
            final(self)@.notes == old(self)@.notes.push(note@),
    {
        self.notes.push(note);
        proof {
            assert(self@.notes =~= old(self)@.notes.push(self.notes@.last()@));
        }
    }

    /// Removes and returns the first note (in insertion order) whose commitment
    /// matches, or returns `None` and leaves the account unchanged when no note
    /// bears that commitment.
    pub fn remove_note(&mut self, commitment: u64) -> (r: Option<Note>)
        ensures
            final(self)@.id == old(self)@.id,
            match find_note(old(self)@.notes, commitment) {
                Some(i) => {
                    &&& r is Some
                    &&& r->Some_0@ == old(self)@.notes[i]
                    &&& final(self)@.notes == old(self)@.notes.remove(i)
                },
                None => r is None && *final(self) == *old(self),
            },
    {
        let n: usize = self.notes.len();
        let mut i: usize = 0;
        while i < n
            invariant
                *self == *old(self),
                n == self.notes@.len(),
                i <= n,
                forall|j: int| 0 <= j < i ==> commitment_of(self@.notes[j]) != commitment,
            decreases n - i,
        {
            if self.notes[i].commit() == commitment {
                proof {
                    lemma_find_note_at(self@.notes, commitment, i as int);
                }
                let note = self.notes.remove(i);
                proof {
                    assert(final(self)@.notes =~= old(self)@.notes.remove(i as int));
                }
                return Some(note);
            }
            i = i + 1;
        }
        proof {
            lemma_find_note_none(self@.notes, commitment);
        }
        None
    }

    /// Finds the index of the first note (in insertion order) whose commitment
    /// matches, without changing the account.
    pub fn find_note_index(&self, commitment: u64) -> (r: Option<usize>)
        ensures
            match r {
                Some(i) => find_note(self@.notes, commitment) == Some(i as int),
                None => find_note(self@.notes, commitment) is None,
            },
    {
        let n: usize = self.notes.len();
        let mut i: usize = 0;
        while i < n
            invariant
                n == self.notes@.len(),
                i <= n,
                forall|j: int| 0 <= j < i ==> commitment_of(self@.notes[j]) != commitment,
            decreases n - i,
        {
            if self.notes[i].commit() == commitment {
                proof {
                    lemma_find_note_at(self@.notes, commitment, i as int);
                }
                return Some(i);
            }
            i = i + 1;
        }
        proof {
            lemma_find_note_none(self@.notes, commitment);
        }
        None
    }

    /// Consolidates every note of the given asset type into a single note
    /// holding their summed amount, removing the originals; creates nothing
    /// when that sum is zero. The other notes keep their order.
    pub fn merge_notes(&mut self, asset_type: &str)
        requires
            tag_total(old(self)@.notes, asset_type@) <= u64::MAX,
        ensures
            final(self)@.id == old(self)@.id,
            final(self)@.notes == merged(old(self)@.notes, asset_type@),
    {
        let tag: String = asset_type.to_owned();
        let n: usize = self.notes.len();
        let mut kept: Vec<Note> = Vec::new();
        let mut total: u64 = 0;
        let mut i: usize = 0;
        proof {
            assert(kept@.map_values(|x: Note| x@) =~= others(
                self@.notes.take(0),
                asset_type@,
            ));
        }
        while i < n
            invariant
                *self == *old(self),
                tag@ == asset_type@,
                tag_total(self@.notes, asset_type@) <= u64::MAX,
                n == self.notes@.len(),
                i <= n,
                kept@.map_values(|x: Note| x@) == others(self@.notes.take(i as int), asset_type@),
                total as int == tag_total(self@.notes.take(i as int), asset_type@),
            decreases n - i,
        {
            proof {
                assert(self@.notes.take(i as int + 1).drop_last() =~= self@.notes.take(i as int));
                assert(self@.notes.take(i as int + 1).last() == self@.notes[i as int]);
                lemma_tag_total_take_le(self@.notes, asset_type@, i as int + 1);
                lemma_tag_total_nonneg(self@.notes.take(i as int), asset_type@);
            }
            let note = &self.notes[i];
            if note.asset_type == tag {
                total = total + note.amount;
            } else {
                kept.push(note.clone());
                proof {
                    assert(kept@.map_values(|x: Note| x@) =~= others(
                        self@.notes.take(i as int),
                        asset_type@,
                    ).push(self@.notes[i as int]));
                }
            }
            i = i + 1;
        }
        proof {
            assert(self@.notes.take(n as int) =~= self@.notes);
        }
        self.notes = kept;
        if total > 0 {
            self.notes.push(Note { asset_type: tag, amount: total });
            proof {
                assert(self@.notes =~= merged(old(self)@.notes, asset_type@));
            }
        } else {
            proof {
                lemma_tag_total_nonneg(old(self)@.notes, asset_type@);
                assert(self@.notes =~= merged(old(self)@.notes, asset_type@));
            }
        }
    }

    /// Reads the account's balance in one asset type: the sum of the matching
    /// notes' amounts.
    pub fn balance_of(&self, asset_type: &str) -> (b: u64)
        requires
            tag_total(self@.notes, asset_type@) <= u64::MAX,
        ensures
            b as int == tag_total(self@.notes, asset_type@),
    {
        let tag: String = asset_type.to_owned();
        let n: usize = self.notes.len();
        let mut total: u64 = 0;
        let mut i: usize = 0;
        while i < n
            invariant
                tag@ == asset_type@,
                tag_total(self@.notes, asset_type@) <= u64::MAX,
                n == self.notes@.len(),
                i <= n,
                total as int == tag_total(self@.notes.take(i as int), asset_type@),
            decreases n - i,
        {
            proof {
                assert(self@.notes.take(i as int + 1).drop_last() =~= self@.notes.take(i as int));
                assert(self@.notes.take(i as int + 1).last() == self@.notes[i as int]);
                lemma_tag_total_take_le(self@.notes, asset_type@, i as int + 1);
                lemma_tag_total_nonneg(self@.notes.take(i as int), asset_type@);
            }
            let note = &self.notes[i];
            if note.asset_type == tag {
                total = total + note.amount;
            }
            i = i + 1;
        }
        proof {
            assert(self@.notes.take(n as int) =~= self@.notes);
        }
        total
    }
}

} // verus!
