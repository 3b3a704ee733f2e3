//! Accumulates raw key events into a pending chord: an optional numeric
//! prefix plus an ordered key sequence. Cancellation always returns the
//! parser to its ground state.

use vstd::prelude::*;
use crate::keys::Key;

verus! {

/// The largest accumulator that can take one more decimal digit without
/// overflowing.
pub const COUNT_ACC_LIMIT: usize = (usize::MAX - 9) / 10;

pub struct KeyChordParser {
    pending: Vec<Key>,
    count_acc: usize,
}

impl KeyChordParser {
    /// The pending (non-digit) key sequence.
    pub closed spec fn pending(self) -> Seq<Key> {
        self.pending@
    }

    /// The digits consumed so far, as a saturating accumulator; zero means
    /// none were entered.
    pub closed spec fn count_acc(self) -> usize {
        self.count_acc
    }

    /// The ground state: nothing pending, no digits consumed.
    pub open spec fn is_ground(self) -> bool {
        self.pending().len() == 0 && self.count_acc() == 0
    }

    /// The count a fired chord resolves to: the entered digits, or one.
    pub open spec fn spec_resolved_count(self) -> usize {
        if self.count_acc() == 0 {
            1
        } else {
            self.count_acc()
        }
    }

    pub fn new() -> (p: KeyChordParser)
        ensures
            p.is_ground(),
    {
        KeyChordParser { pending: Vec::new(), count_acc: 0 }
    }

    /// Cancel whatever is pending: both the digits and the key sequence are
    /// dropped and the parser is back in its ground state.
    pub fn clear(&mut self)
        ensures
            final(self).is_ground(),
    {
        self.pending.clear();
        self.count_acc = 0;
    }

    /// Consume one digit of a numeric prefix, saturating.
    pub fn push_digit(&mut self, d: usize)
        requires
            d <= 9,
        ensures
            final(self).pending() == old(self).pending(),
            final(self).count_acc() == if old(self).count_acc() <= COUNT_ACC_LIMIT {
                (old(self).count_acc() * 10 + d) as int
            } else {
                usize::MAX as int
            },
    {
        if self.count_acc <= COUNT_ACC_LIMIT {
            self.count_acc = self.count_acc * 10 + d;
        } else {
            self.count_acc = usize::MAX;
        }
    }

    /// Append one key to the pending sequence.
    pub fn push_key(&mut self, k: Key)
        ensures
            final(self).pending() == old(self).pending().push(k),
            final(self).count_acc() == old(self).count_acc(),
    {
        self.pending.push(k);
    }

    pub fn resolved_count(&self) -> (n: usize)
        ensures
            n == self.spec_resolved_count(),
    {
        if self.count_acc == 0 {
            1
        } else {
            self.count_acc
        }
    }

    pub fn pending_keys(&self) -> (ks: &Vec<Key>)
        ensures
            ks@ == self.pending(),
    {
        &self.pending
    }

    pub fn pending_is_empty(&self) -> (b: bool)
        ensures
            b == (self.pending().len() == 0),
    {
        self.pending.len() == 0
    }
}

} // verus!
