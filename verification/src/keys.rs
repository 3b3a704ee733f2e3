//! Key codes as the editor core sees them: plain values fed in by the
//! driver, with no terminal details attached.

use vstd::prelude::*;

verus! {

#[derive(Clone, Copy, PartialEq, Eq, Structural, Debug)]
pub enum Key {
    Char(char),
    Ctrl(char),
    Esc,
    Enter,
    Backspace,
    Tab,
    Up,
    Down,
    Left,
    Right,
    Home,
    End,
    Delete,
}

/// The decimal value of a digit key, if the key is one.
pub open spec fn spec_digit_of(k: Key) -> Option<usize> {
    match k {
        Key::Char(c) => if 48 <= c as u32 <= 57 {
            Some((c as u32 - 48) as usize)
        } else {
            None
        },
        _ => None,
    }
}

pub fn digit_of(k: Key) -> (d: Option<usize>)
    ensures
        d == spec_digit_of(k),
{
    match k {
        Key::Char(c) => {
            let u = c as u32;
            if 48 <= u && u <= 57 {
                Some((u - 48) as usize)
            } else {
                None
            }
        },
        _ => None,
    }
}

/// Compare two key sequences.
pub fn keys_eq(a: &[Key], b: &[Key]) -> (r: bool)
    ensures
        r == (a@ == b@),
{
    if a.len() != b.len() {
        proof {
            assert(a@.len() != b@.len());
        }
        return false;
    }
    let n = a.len();
    let mut i: usize = 0;
    while i < n
        invariant
            n == a@.len() == b@.len(),
            i <= n,
            forall|j: int| 0 <= j < i ==> a@[j] == b@[j],
        decreases n - i,
    {
        if a[i] != b[i] {
            proof {
                assert(a@[i as int] != b@[i as int]);
            }
            return false;
        }
        i = i + 1;
    }
    proof {
        assert(a@ =~= b@);
    }
    true
}

} // verus!
