//! Notes and their commitments.
//!
//! A note is an immutable (asset type, amount) record. Its commitment is a
//! 64-bit identifier computed deterministically from the content alone, so
//! two notes with the same content are indistinguishable by commitment:
//! duplicate-content notes are deliberately fungible, and every lookup by
//! commitment resolves ties by a fixed order (first in insertion order).

use vstd::prelude::*;

verus! {

/// Multiplier of one mixing round of the commitment hash (the 64-bit FNV prime).
pub const COMMIT_PRIME: u64 = 0x100_0000_01b3;

/// Starting state of the commitment hash (the 64-bit FNV offset basis).
pub const COMMIT_OFFSET: u64 = 0xcbf2_9ce4_8422_2325;

/// One mixing round of the commitment hash: fold one 64-bit word into the state.
pub open spec fn mix(h: u64, x: u64) -> u64 {
    vstd::wrapping::u64_specs::wrapping_mul(h ^ x, COMMIT_PRIME)
}

/// Hash of a character sequence: one mixing round per character, front to back.
pub open spec fn hash_chars(s: Seq<char>) -> u64
    decreases s.len(),
{
    if s.len() == 0 {
        COMMIT_OFFSET
    } else {
        mix(hash_chars(s.drop_last()), s.last() as u64)
    }
}

/// The content of a note: an asset type tag and an unsigned amount.
pub struct NoteView {
    pub asset_type: Seq<char>,
    pub amount: u64,
}

/// The commitment of a note's content: the tag's characters, the tag's length
/// and the amount, folded into the hash state in that order. Deterministic and
/// total; the ledger never stores it, it is recomputed from content on demand.
pub open spec fn commitment_of(n: NoteView) -> u64 {
    mix(mix(hash_chars(n.asset_type), n.asset_type.len() as u64), n.amount)
}

/// An immutable value record: a quantity of one asset type.
pub struct Note {
    pub asset_type: String,
    pub amount: u64,
}

impl View for Note {
    type V = NoteView;

    open spec fn view(&self) -> NoteView {
        NoteView { asset_type: self.asset_type@, amount: self.amount }
    }
}

impl Clone for Note {
    fn clone(&self) -> (r: Self)
        ensures
            r@ == self@,
    {
        Note { asset_type: self.asset_type.clone(), amount: self.amount }
    }
}

impl Note {
    /// Builds a note from an asset type tag and an amount.
    pub fn new(asset_type: &str, amount: u64) -> (n: Note)
        ensures
            n@ == (NoteView { asset_type: asset_type@, amount }),
    {
        Note { asset_type: asset_type.to_owned(), amount }
    }

    /// Computes the note's commitment from its content.
    pub fn commit(&self) -> (c: u64)
        ensures
            c == commitment_of(self@),
    {
        let s: &str = self.asset_type.as_str();
        let n: usize = s.unicode_len();
        let mut h: u64 = COMMIT_OFFSET;
        let mut i: usize = 0;
        while i < n
            invariant
                n == s@.len(),
                i <= n,
                h == hash_chars(s@.take(i as int)),
                s@ == self.asset_type@,
            decreases n - i,
        {
            let ch = s.get_char(i);
            proof {
                assert(s@.take(i as int + 1).drop_last() =~= s@.take(i as int));
                assert(s@.take(i as int + 1).last() == s@[i as int]);
            }
            h = (h ^ (ch as u64)).wrapping_mul(COMMIT_PRIME);
            i = i + 1;
        }
        proof {
            assert(s@.take(n as int) =~= s@);
        }
        let h = (h ^ (n as u64)).wrapping_mul(COMMIT_PRIME);
        (h ^ self.amount).wrapping_mul(COMMIT_PRIME)
    }
}

} // verus!
