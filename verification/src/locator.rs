//! Locators: structured addresses naming a link endpoint.
//!
//! A locator is written `<protocol>/<address>`, for instance
//! `tcp/127.0.0.1:7447`: the transport kind up to the first slash, the
//! endpoint address after it. It is parsed once, at session-open time, and
//! immutable thereafter.

use vstd::prelude::*;

verus! {

/// The byte separating the transport kind from the address: `/`.
pub const LOCATOR_SEPARATOR: u8 = 47;

/// A parsed link-endpoint address.
#[derive(Debug, Clone, PartialEq, Eq)]
pub struct Locator {
    pub protocol: Vec<u8>,
    pub address: Vec<u8>,
}

/// The mathematical model of a [`Locator`].
pub struct LocatorModel {
    pub protocol: Seq<u8>,
    pub address: Seq<u8>,
}

impl View for Locator {
    type V = LocatorModel;

    open spec fn view(&self) -> LocatorModel {
        LocatorModel { protocol: self.protocol@, address: self.address@ }
    }
}

/// Whether `i` is the split point of a well-formed locator text: the first
/// separator, with a nonempty protocol before it and a nonempty address
/// after it.
pub open spec fn is_sep_split(s: Seq<u8>, i: int) -> bool {
    &&& 0 < i
    &&& i + 1 < s.len()
    &&& s[i] == LOCATOR_SEPARATOR
    &&& forall|j: int| 0 <= j < i ==> s[j] != LOCATOR_SEPARATOR
}

/// Whether `s` is a well-formed locator text.
pub open spec fn locator_parse_ok(s: Seq<u8>) -> bool {
    exists|i: int| is_sep_split(s, i)
}

/// The split point of a well-formed locator text.
pub open spec fn locator_sep(s: Seq<u8>) -> int {
    choose|i: int| is_sep_split(s, i)
}

/// The split point is unique: at most one first separator exists.
pub proof fn lemma_sep_split_unique(s: Seq<u8>, i1: int, i2: int)
    requires
        is_sep_split(s, i1),
        is_sep_split(s, i2),
    ensures
        i1 == i2,
{
    if i1 < i2 {
        assert(s[i1] != LOCATOR_SEPARATOR);
    }
    if i2 < i1 {
        assert(s[i2] != LOCATOR_SEPARATOR);
    }
}

impl Locator {
    /// Parses a locator text into its protocol and address, or reports it
    /// invalid. Exactly the well-formed texts parse.
    pub fn parse(s: &[u8]) -> (r: Option<Locator>)
        ensures
            match r {
                Some(loc) => {
                    &&& locator_parse_ok(s@)
                    &&& loc@.protocol == s@.take(locator_sep(s@))
                    &&& loc@.address == s@.skip(locator_sep(s@) + 1)
                },
                None => !locator_parse_ok(s@),
            },
    {
        let slen: usize = s.len();
        let mut i: usize = 0;
        while i < slen && s[i] != LOCATOR_SEPARATOR
            invariant
                slen == s@.len(),
                i <= slen,
                forall|j: int| 0 <= j < i ==> s@[j] != LOCATOR_SEPARATOR,
            decreases slen - i,
        {
            i = i + 1;
        }
        if i == 0 || i >= slen || i + 1 >= slen {
            proof {
                if locator_parse_ok(s@) {
                    let w = locator_sep(s@);
                    if i < slen {
                        lemma_sep_split_unique(s@, w, i as int);
                    } else {
                        assert(s@[w] != LOCATOR_SEPARATOR);
                    }
                }
            }
            return None;
        }
        let protocol = vstd::slice::slice_to_vec(vstd::slice::slice_subrange(s, 0, i));
        let address = vstd::slice::slice_to_vec(vstd::slice::slice_subrange(s, i + 1, slen));
        let loc = Locator { protocol, address };
        proof {
            assert(is_sep_split(s@, i as int));
            lemma_sep_split_unique(s@, locator_sep(s@), i as int);
            assert(loc@.protocol =~= s@.take(i as int));
            assert(loc@.address =~= s@.skip(i as int + 1));
        }
        Some(loc)
    }
}

/// The value of a decimal digit string, most significant digit first.
pub open spec fn decimal_value(s: Seq<u8>) -> nat
    decreases s.len(),
{
    if s.len() == 0 {
        0
    } else {
        decimal_value(s.take(s.len() - 1)) * 10 + (s[s.len() - 1] - 48) as nat
    }
}

/// Whether every byte of `s` is an ASCII decimal digit.
pub open spec fn all_digits(s: Seq<u8>) -> bool {
    forall|i: int| 0 <= i < s.len() ==> 48 <= #[trigger] s[i] <= 57
}

/// Parses a nonempty ASCII decimal digit string into the number it writes.
/// Exactly the nonempty all-digit strings whose value fits return `Some`.
pub fn parse_decimal(s: &[u8]) -> (r: Option<u64>)
    ensures
        match r {
            Some(v) => {
                &&& s@.len() > 0
                &&& all_digits(s@)
                &&& v as nat == decimal_value(s@)
            },
            None => {
                s@.len() == 0 || !all_digits(s@) || decimal_value(s@) > u64::MAX
            },
        },
{
    let slen: usize = s.len();
    if slen == 0 {
        return None;
    }
    let mut acc: u64 = 0;
    let mut i: usize = 0;
    while i < slen
        invariant
            slen == s@.len(),
            i <= slen,
            all_digits(s@.take(i as int)),
            acc as nat == decimal_value(s@.take(i as int)),
        decreases slen - i,
    {
        let b = s[i];
        if b < 48 || b > 57 {
            assert(!all_digits(s@));
            return None;
        }
        let d = (b - 48) as u64;
        if acc > (u64::MAX - d) / 10 {
            proof {
                assert(acc * 10 + d > u64::MAX) by (nonlinear_arith)
                    requires
                        acc > (u64::MAX - d) / 10,
                        d <= 9,
                ;
                if all_digits(s@) {
                    assert(s@.take(i + 1).take(i as int) =~= s@.take(i as int));
                    assert(decimal_value(s@.take(i + 1)) == acc * 10 + d);
                    lemma_decimal_value_monotonic(s@, i + 1);
                }
            }
            return None;
        }
        assert(acc * 10 + d <= u64::MAX) by (nonlinear_arith)
            requires
                acc <= (u64::MAX - d) / 10,
                d <= 9,
        ;
        acc = acc * 10 + d;
        i = i + 1;
        assert(s@.take(i as int).take(i as int - 1) =~= s@.take(i as int - 1));
    }
    assert(s@.take(slen as int) =~= s@);
    Some(acc)
}

/// A digit string's value only grows as more digits follow: the value of a
/// prefix never exceeds the value of the whole.
proof fn lemma_decimal_value_monotonic(s: Seq<u8>, i: int)
    requires
        0 <= i <= s.len(),
        all_digits(s),
    ensures
        decimal_value(s.take(i)) <= decimal_value(s),
    decreases s.len() - i,
{
    if i < s.len() {
        lemma_decimal_value_monotonic(s, i + 1);
        assert(s.take(i + 1).take(i) =~= s.take(i));
        assert(decimal_value(s.take(i + 1)) == decimal_value(s.take(i)) * 10 + (s[i] - 48) as nat);
        assert(decimal_value(s.take(i)) <= decimal_value(s.take(i)) * 10) by (nonlinear_arith);
    } else {
        assert(s.take(i) =~= s);
    }
}

} // verus!
