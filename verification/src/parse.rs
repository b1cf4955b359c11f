//! Parsing of numeric command-line values that may carry underscore
//! separators, such as `1_000_000`.
use vstd::prelude::*;

use crate::text::{chars_to_string, str_chars};

verus! {

/// `s` with every underscore removed.
pub open spec fn no_underscores(s: Seq<char>) -> Seq<char>
    decreases s.len(),
{
    if s.len() == 0 {
        Seq::empty()
    } else if s.last() == '_' {
        no_underscores(s.drop_last())
    } else {
        no_underscores(s.drop_last()).push(s.last())
    }
}

/// `s` without its leading plus sign, if it carries one.
pub open spec fn strip_plus(s: Seq<char>) -> Seq<char> {
    if s.len() > 0 && s[0] == '+' {
        s.drop_first()
    } else {
        s
    }
}

/// Whether `s` is text that parsing accepts: an optional leading plus sign
/// followed by at least one decimal digit.
pub open spec fn is_count_text(s: Seq<char>) -> bool {
    let digits = strip_plus(s);
    digits.len() > 0 && forall|i: int|
        0 <= i < digits.len() ==> 48 <= (#[trigger] digits[i]) as int <= 57
}

/// The number a run of decimal digits stands for.
pub open spec fn digits_value(s: Seq<char>) -> nat
    decreases s.len(),
{
    if s.len() == 0 {
        0
    } else {
        digits_value(s.drop_last()) * 10 + (s.last() as int - 48) as nat
    }
}

#[verifier::external_type_specification]
#[verifier::external_body]
pub struct ExParseIntError(std::num::ParseIntError);

/// Relies on `str::parse::<usize>` (`usize::from_str`): accepts an optional
/// leading plus sign followed by decimal digits, rejects anything else as
/// well as values over `usize::MAX`.
#[verifier::external_body]
fn parse_usize(s: &str) -> (r: Result<usize, std::num::ParseIntError>)
    ensures
        r is Ok <==> (is_count_text(s@) && digits_value(strip_plus(s@)) <= usize::MAX),
        r is Ok ==> r->Ok_0 as nat == digits_value(strip_plus(s@)),
{
    s.parse()
}

/// Parses a count whose digits may be grouped with underscores: underscores
/// are removed, and what remains must be decimal digits (after an optional
/// plus sign) denoting a value that fits a `usize`.
pub fn parse_number_with_underscores(s: &str) -> (r: Result<usize, std::num::ParseIntError>)
    ensures
        r is Ok <==> (is_count_text(no_underscores(s@)) && digits_value(
            strip_plus(no_underscores(s@)),
        ) <= usize::MAX),
        r is Ok ==> r->Ok_0 as nat == digits_value(strip_plus(no_underscores(s@))),
{
    let chars = str_chars(s);
    let mut kept: Vec<char> = Vec::new();
    proof {
        assert(kept@ =~= no_underscores(chars@.take(0)));
    }
    let mut i: usize = 0;
    while i < chars.len()
        invariant
            i <= chars@.len(),
            chars@ == s@,
            kept@ == no_underscores(chars@.take(i as int)),
        decreases chars@.len() - i,
    {
        let c = chars[i];
        proof {
            assert(chars@.take((i + 1) as int).drop_last() =~= chars@.take(i as int));
            assert(chars@.take((i + 1) as int).last() == chars@[i as int]);
        }
        if c != '_' {
            kept.push(c);
        }
        i += 1;
    }
    proof {
        assert(chars@.take(chars@.len() as int) =~= chars@);
    }
    let cleaned = chars_to_string(&kept);
    parse_usize(cleaned.as_str())
}

} // verus!
