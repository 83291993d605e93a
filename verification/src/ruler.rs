//! The measuring sink: counts the characters it receives and keeps no
//! text. Alignment's measuring pass writes to it.

use vstd::prelude::*;

verus! {

/// Addition capped at the largest count a ruler can hold.
pub open spec fn sat_add(a: nat, b: nat) -> nat {
    if a + b <= usize::MAX {
        a + b
    } else {
        usize::MAX as nat
    }
}

/// A write target that only counts: it receives text and remembers nothing
/// but how many characters went by. Counts cap at the largest `usize`.
#[derive(Debug)]
pub struct Ruler {
    length: usize,
}

/// A ruler's count always fits in a `usize`.
pub broadcast proof fn lemma_ruler_bound(r: Ruler)
    ensures
        #[trigger] r.spec_length() <= usize::MAX,
{
}

impl Ruler {
    /// The count of characters received so far.
    pub closed spec fn spec_length(self) -> nat {
        self.length as nat
    }

    /// The count of characters received so far.
    pub fn length(&self) -> (r: usize)
        ensures
            r as nat == self.spec_length(),
    {
        self.length
    }

    /// Counts `n` more characters.
    pub fn record(&mut self, n: usize)
        ensures
            final (self).spec_length() == sat_add(old(self).spec_length(), n as nat),
    {
        if self.length <= usize::MAX - n {
            self.length = self.length + n;
        } else {
            self.length = usize::MAX;
        }
    }

    /// Counts the characters of a string slice.
    pub fn write_str(&mut self, s: &str)
        ensures
            final (self).spec_length() == sat_add(old(self).spec_length(), s@.len()),
    {
        let v = crate::text::str_to_chars(s);
        self.record(v.len());
    }
}

impl Default for Ruler {
    /// A fresh ruler has counted nothing.
    fn default() -> (r: Self)
        ensures
            r.spec_length() == 0,
    {
        Ruler { length: 0 }
    }
}

} // verus!
