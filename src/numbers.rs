use vstd::prelude::*;
use vstd::string::*;

use crate::sealed::Sealed;

verus! {

/// An ASCII decimal digit.
pub open spec fn is_digit(c: char) -> bool {
    '0' <= c && c <= '9'
}

/// Position of the first digit of `s` at or after `k`, or the length of `s` if there is none.
pub open spec fn next_digit(s: Seq<char>, k: int) -> int
    decreases s.len() - k,
{
    if k >= s.len() {
        s.len() as int
    } else if is_digit(s[k]) {
        k
    } else {
        next_digit(s, k + 1)
    }
}

/// End of the run of digits of `s` that starts at `k`: the first position at or after `k`
/// that holds no digit, or the length of `s`.
pub open spec fn digits_end(s: Seq<char>, k: int) -> int
    decreases s.len() - k,
{
    if 0 <= k < s.len() && is_digit(s[k]) {
        digits_end(s, k + 1)
    } else {
        k
    }
}

/// Where the number of `s` whose first digit stands at `i` starts: at a `'-'` right before
/// that digit, or at the digit.
pub open spec fn number_start(s: Seq<char>, i: int) -> int {
    if i > 0 && s[i - 1] == '-' {
        i - 1
    } else {
        i
    }
}

/// Start and end of the first number in `s`, if `s` holds a digit.
pub open spec fn next_number(s: Seq<char>) -> Option<(int, int)> {
    let i = next_digit(s, 0);
    if i < s.len() {
        Some((number_start(s, i), digits_end(s, i)))
    } else {
        None
    }
}

/// An extension trait that adds convenient functions on [`str`].
pub trait StrExt: Sealed + View<V = Seq<char>> {
    /// Returns a scanner over all disjoint contiguous sequences of ASCII digits, each with
    /// the `'-'` sign that directly precedes it, if there is one.
    fn extract_numbers(&self) -> (r: ExtractNumbers<'_>)
        ensures
            r@ == self@,
    ;
}

impl StrExt for str {
    fn extract_numbers(&self) -> (r: ExtractNumbers<'_>) {
        ExtractNumbers { remainder: self }
    }
}

/// The scanner that [`StrExt::extract_numbers`] returns; [`ExtractNumbers::next`] yields
/// one number after the other.
pub struct ExtractNumbers<'a> {
    remainder: &'a str,
}

impl<'a> View for ExtractNumbers<'a> {
    type V = Seq<char>;

    /// The text not yet scanned.
    closed spec fn view(&self) -> Seq<char> {
        self.remainder@
    }
}

fn is_ascii_digit(c: char) -> (r: bool)
    ensures
        r == is_digit(c),
{
    '0' <= c && c <= '9'
}

impl<'a> ExtractNumbers<'a> {
    /// Returns the next number of the text, or `None` once the text holds no more digits.
    pub fn next(&mut self) -> (r: Option<&'a str>)
        ensures
            match next_number(old(self)@) {
                None => r is None && final(self)@.len() == 0,
                Some((start, end)) => {
                    &&& r is Some
                    &&& r->0@ == old(self)@.subrange(start, end)
                    &&& final(self)@ == old(self)@.skip(end)
                },
            },
    {
        let s = self.remainder;
        let len = s.unicode_len();
        let mut i: usize = 0;
        while i < len && !is_ascii_digit(s.get_char(i))
            invariant
                len == s@.len(),
                i <= len,
                next_digit(s@, 0) == next_digit(s@, i as int),
            decreases len - i,
        {
            i += 1;
        }
        if i == len {
            self.remainder = s.substring_char(len, len);
            return None;
        }
        let start = if i > 0 && s.get_char(i - 1) == '-' {
            i - 1
        } else {
            i
        };
        let mut end = i + 1;
        while end < len && is_ascii_digit(s.get_char(end))
            invariant
                len == s@.len(),
                i < end <= len,
                digits_end(s@, i as int) == digits_end(s@, end as int),
            decreases len - end,
        {
            end += 1;
        }
        self.remainder = s.substring_char(end, len);
        Some(s.substring_char(start, end))
    }
}

} // verus!

verus! {

/// A run of one or more digits, with at most one `'-'` before it.
pub open spec fn is_number_token(t: Seq<char>) -> bool {
    let digits = if t.len() > 0 && t[0] == '-' {
        t.drop_first()
    } else {
        t
    };
    digits.len() > 0 && forall|j: int| 0 <= j < digits.len() ==> is_digit(#[trigger] digits[j])
}

proof fn lemma_next_digit(s: Seq<char>, k: int)
    requires
        0 <= k <= s.len(),
    ensures
        k <= next_digit(s, k) <= s.len(),
        next_digit(s, k) < s.len() ==> is_digit(s[next_digit(s, k)]),
    decreases s.len() - k,
{
    if k < s.len() && !is_digit(s[k]) {
        lemma_next_digit(s, k + 1);
    }
}

proof fn lemma_digits_end(s: Seq<char>, k: int)
    requires
        0 <= k <= s.len(),
    ensures
        k <= digits_end(s, k) <= s.len(),
        digits_end(s, k) < s.len() ==> !is_digit(s[digits_end(s, k)]),
        forall|j: int| k <= j < digits_end(s, k) ==> is_digit(#[trigger] s[j]),
    decreases s.len() - k,
{
    if k < s.len() && is_digit(s[k]) {
        lemma_digits_end(s, k + 1);
    }
}

/// Every piece that the scanner hands out is a number token (`-?[0-9]+`) whose digit run
/// cannot be extended to the right, and the text left to scan is shorter than before.
pub proof fn lemma_next_number_is_token(s: Seq<char>)
    requires
        next_number(s) is Some,
    ensures
        ({
            let (start, end) = next_number(s)->0;
            &&& 0 <= start < end <= s.len()
            &&& is_number_token(s.subrange(start, end))
            &&& end == s.len() || !is_digit(s[end])
            &&& s.skip(end).len() < s.len()
        }),
{
    lemma_next_digit(s, 0);
    let i = next_digit(s, 0);
    lemma_digits_end(s, i);
    let start = number_start(s, i);
    let end = digits_end(s, i);
    let t = s.subrange(start, end);
    let digits = if t.len() > 0 && t[0] == '-' {
        t.drop_first()
    } else {
        t
    };
    if start < i {
        assert(digits =~= s.subrange(i, end));
    } else {
        assert(!is_digit('-'));
        assert(digits =~= s.subrange(i, end));
    }
    assert forall|j: int| 0 <= j < digits.len() implies is_digit(#[trigger] digits[j]) by {
        assert(digits[j] == s[i + j]);
    }
}

} // verus!
