//! The path and query splitter, and the decimal numbers of header values.

use vstd::prelude::*;
use crate::error::ProtocolError;

verus! {

/// The byte `?`, which ends the path of a request target.
pub const QUESTION_MARK: u8 = 0x3f;

/// `at` is where the first `?` of `raw` stands, or the length of `raw` when
/// it holds none.
pub open spec fn splits_at(raw: Seq<u8>, at: int) -> bool {
    &&& 0 <= at <= raw.len()
    &&& forall|j: int| 0 <= j < at ==> raw[j] != QUESTION_MARK
    &&& at < raw.len() ==> raw[at] == QUESTION_MARK
}

/// Where the path of the target `raw` ends.
pub open spec fn split_point(raw: Seq<u8>) -> int {
    choose|at: int| splits_at(raw, at)
}

/// The path of the target `raw`: what stands before its first `?`.
pub open spec fn path_of(raw: Seq<u8>) -> Seq<u8> {
    raw.take(split_point(raw))
}

/// The query of the target `raw`: what stands after its first `?`, if it has
/// one. A target that ends in `?` has the empty query.
pub open spec fn query_of(raw: Seq<u8>) -> Option<Seq<u8>> {
    if split_point(raw) < raw.len() {
        Some(raw.skip(split_point(raw) + 1))
    } else {
        None
    }
}

/// A byte that may stand in a path: a visible ASCII character.
pub open spec fn path_byte(b: u8) -> bool {
    0x21 <= b && b <= 0x7e
}

/// A well-formed path: not empty, and made of visible ASCII characters.
pub open spec fn valid_path(path: Seq<u8>) -> bool {
    path.len() > 0 && forall|i: int| 0 <= i < path.len() ==> path_byte(#[trigger] path[i])
}

/// Only one index splits a target.
pub proof fn lemma_split_unique(raw: Seq<u8>, at: int)
    requires
        splits_at(raw, at),
    ensures
        split_point(raw) == at,
{
    let chosen = split_point(raw);
    assert(splits_at(raw, chosen));
    if chosen < at {
        assert(raw[chosen] != QUESTION_MARK);
    } else if at < chosen {
        assert(raw[at] != QUESTION_MARK);
    }
}

/// A request target split into its path and its query.
#[derive(Clone, Copy, Debug, PartialEq, Eq)]
pub struct PathAndQuery<'a> {
    path: &'a [u8],
    query: Option<&'a [u8]>,
}

impl<'a> PathAndQuery<'a> {
    #[verifier::type_invariant]
    spec fn inv(&self) -> bool {
        valid_path(self.path@)
    }

    /// The path.
    pub closed spec fn path_bytes(&self) -> Seq<u8> {
        self.path@
    }

    /// The query, if the target has one.
    pub closed spec fn query_bytes(&self) -> Option<Seq<u8>> {
        match self.query {
            Some(q) => Some(q@),
            None => None,
        }
    }

    /// Splits a raw request target at its first `?`. Fails with `InvalidUrl`
    /// exactly when the path is not well formed; the query is not examined.
    pub fn parse(raw: &'a [u8]) -> (r: Result<PathAndQuery<'a>, ProtocolError>)
        ensures
            match r {
                Ok(paq) => valid_path(path_of(raw@)) && paq.path_bytes() == path_of(raw@)
                    && paq.query_bytes() == query_of(raw@),
                Err(e) => !valid_path(path_of(raw@)) && e == ProtocolError::InvalidUrl,
            },
    {
        let mut at: usize = 0;
        while at < raw.len() && raw[at] != QUESTION_MARK
            invariant
                at <= raw.len(),
                forall|j: int| 0 <= j < at ==> raw@[j] != QUESTION_MARK,
            decreases raw.len() - at,
        {
            at += 1;
        }
        proof {
            lemma_split_unique(raw@, at as int);
        }
        let path = vstd::slice::slice_subrange(raw, 0, at);
        assert(path@ == path_of(raw@));
        if !is_valid_path(path) {
            return Err(ProtocolError::InvalidUrl);
        }
        let query = if at < raw.len() {
            Some(vstd::slice::slice_subrange(raw, at + 1, raw.len()))
        } else {
            None
        };
        Ok(PathAndQuery { path, query })
    }

    /// The path.
    pub fn path(&self) -> (r: &'a [u8])
        ensures
            r@ == self.path_bytes(),
            valid_path(r@),
    {
        proof {
            use_type_invariant(self);
        }
        self.path
    }

    /// The query, if the target has one.
    pub fn query(&self) -> (r: Option<&'a [u8]>)
        ensures
            match r {
                Some(q) => self.query_bytes() == Some(q@),
                None => self.query_bytes() is None,
            },
    {
        self.query
    }
}

/// Whether `path` is a well-formed path.
pub fn is_valid_path(path: &[u8]) -> (r: bool)
    ensures
        r == valid_path(path@),
{
    if path.len() == 0 {
        return false;
    }
    let mut i: usize = 0;
    while i < path.len()
        invariant
            i <= path.len(),
            forall|k: int| 0 <= k < i ==> path_byte(#[trigger] path@[k]),
        decreases path.len() - i,
    {
        if path[i] < 0x21 || path[i] > 0x7e {
            return false;
        }
        i += 1;
    }
    true
}

/// The value of a string of decimal digits.
pub open spec fn digits_value(digits: Seq<u8>) -> nat
    decreases digits.len(),
{
    if digits.len() == 0 {
        0
    } else {
        digits_value(digits.drop_last()) * 10 + (digits.last() - 0x30) as nat
    }
}

/// A decimal digit.
pub open spec fn is_digit(b: u8) -> bool {
    0x30 <= b && b <= 0x39
}

/// The digits of a decimal number: the text without a leading `+`.
pub open spec fn decimal_digits_of(text: Seq<u8>) -> Seq<u8> {
    if text.len() > 0 && text[0] == 0x2b {
        text.drop_first()
    } else {
        text
    }
}

/// The number that `text` denotes: an optional `+` and then one or more
/// decimal digits. Anything else denotes none.
pub open spec fn decimal_value(text: Seq<u8>) -> Option<nat> {
    let digits = decimal_digits_of(text);
    if digits.len() > 0 && forall|i: int| 0 <= i < digits.len() ==> is_digit(#[trigger] digits[i]) {
        Some(digits_value(digits))
    } else {
        None
    }
}

/// The number that `text` denotes as a `usize`, if it denotes one that fits.
pub open spec fn usize_value(text: Seq<u8>) -> Option<usize> {
    match decimal_value(text) {
        Some(n) => if n <= usize::MAX {
            Some(n as usize)
        } else {
            None
        },
        None => None,
    }
}

/// The value of a digit string is at least that of each of its prefixes.
pub proof fn lemma_digits_value_monotone(digits: Seq<u8>, k: int)
    requires
        0 <= k <= digits.len(),
        forall|i: int| 0 <= i < digits.len() ==> is_digit(#[trigger] digits[i]),
    ensures
        digits_value(digits.take(k)) <= digits_value(digits),
    decreases digits.len(),
{
    if k == digits.len() {
        assert(digits.take(k) =~= digits);
    } else {
        lemma_digits_value_monotone(digits.drop_last(), k);
        assert(digits.drop_last().take(k) =~= digits.take(k));
        assert(is_digit(digits[digits.len() - 1]));
    }
}

/// Reads a decimal number: an optional `+`, then one or more digits, no
/// other byte. Gives `None` for any other text and for a number that does
/// not fit in a `usize`.
pub fn parse_usize(text: &[u8]) -> (r: Option<usize>)
    ensures
        r == usize_value(text@),
{
    let start: usize = if text.len() > 0 && text[0] == 0x2b {
        1
    } else {
        0
    };
    let ghost digits = decimal_digits_of(text@);
    assert(digits =~= text@.skip(start as int));
    if start == text.len() {
        return None;
    }
    let mut value: usize = 0;
    let mut i: usize = start;
    while i < text.len()
        invariant
            start <= i <= text.len(),
            digits == text@.skip(start as int),
            digits == decimal_digits_of(text@),
            forall|k: int| 0 <= k < i - start ==> is_digit(#[trigger] digits[k]),
            value == digits_value(digits.take(i - start)),
        decreases text.len() - i,
    {
        let b = text[i];
        if b < 0x30 || b > 0x39 {
            assert(!is_digit(digits[i - start]));
            return None;
        }
        let digit: usize = (b - 0x30) as usize;
        proof {
            assert(digits.take(i - start + 1).drop_last() =~= digits.take(i - start));
            assert(digits.take(i - start + 1).last() == b);
        }
        if value > (usize::MAX - digit) / 10 {
            proof {
                assert(value * 10 + digit > usize::MAX) by (nonlinear_arith)
                    requires
                        value > (usize::MAX - digit) / 10,
                        digit <= usize::MAX,
                ;
                if forall|k: int| 0 <= k < digits.len() ==> is_digit(#[trigger] digits[k]) {
                    lemma_digits_value_monotone(digits, i - start + 1);
                }
            }
            return None;
        }
        assert(value * 10 + digit <= usize::MAX) by (nonlinear_arith)
            requires
                value <= (usize::MAX - digit) / 10,
                digit <= usize::MAX,
        ;
        value = value * 10 + digit;
        i += 1;
    }
    assert(digits.take(i - start) =~= digits);
    Some(value)
}

} // verus!
