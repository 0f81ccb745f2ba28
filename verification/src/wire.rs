//! Parsing of wire field values: decimal strings carrying counts,
//! durations in seconds or in milliseconds, and textual media types.
//! Metadata responses carry numbers as strings; these functions turn
//! them into the values the catalog holds. Media types are carried in
//! their canonical textual form, validated and normalized by a real
//! media-type parser on the way in.

use vstd::prelude::*;

use crate::duration::Duration;

verus! {

/// The character is a decimal digit.
pub open spec fn is_digit(c: char) -> bool {
    '0' <= c && c <= '9'
}

/// The numeric value of a decimal digit.
pub open spec fn digit_val(c: char) -> int {
    c as int - '0' as int
}

/// Every character of the sequence is a decimal digit.
pub open spec fn all_digits(s: Seq<char>) -> bool {
    forall|i: int| 0 <= i < s.len() ==> is_digit(#[trigger] s[i])
}

/// The value of a decimal digit string, most significant digit first.
pub open spec fn dec_val(s: Seq<char>) -> int
    decreases s.len(),
{
    if s.len() == 0 {
        0
    } else {
        dec_val(s.drop_last()) * 10 + digit_val(s.last())
    }
}

/// The string `s` denotes a decimal number that fits in a `u64`: it is
/// non-empty, all digits, and its value is within range.
pub open spec fn fits_u64(s: Seq<char>) -> bool {
    s.len() > 0 && all_digits(s) && dec_val(s) <= u64::MAX
}

/// A digit string's value is non-negative.
pub proof fn lemma_dec_val_nonneg(s: Seq<char>)
    requires
        all_digits(s),
    ensures
        dec_val(s) >= 0,
    decreases s.len(),
{
    if s.len() > 0 {
        assert(all_digits(s.drop_last()));
        lemma_dec_val_nonneg(s.drop_last());
    }
}

/// Extending a digit string never shrinks its value.
pub proof fn lemma_dec_val_prefix_le(s: Seq<char>, i: int, j: int)
    requires
        all_digits(s),
        0 <= i <= j <= s.len(),
    ensures
        dec_val(s.subrange(0, i)) <= dec_val(s.subrange(0, j)),
    decreases j - i,
{
    if i < j {
        let p = s.subrange(0, j);
        assert(p.drop_last() =~= s.subrange(0, j - 1));
        assert(all_digits(s.subrange(0, j - 1)));
        lemma_dec_val_nonneg(s.subrange(0, j - 1));
        assert(dec_val(s.subrange(0, j)) == dec_val(s.subrange(0, j - 1)) * 10 + digit_val(
            s[j - 1],
        ));
        assert(dec_val(s.subrange(0, j - 1)) * 10 >= dec_val(s.subrange(0, j - 1)))
            by (nonlinear_arith)
            requires
                dec_val(s.subrange(0, j - 1)) >= 0,
        ;
        lemma_dec_val_prefix_le(s, i, j - 1);
    } else {
        assert(s.subrange(0, i) =~= s.subrange(0, j));
    }
}

/// Parses a decimal string into a `u64`. Returns the denoted value
/// exactly when the string is a non-empty digit string whose value fits;
/// returns nothing otherwise (empty, a non-digit, or out of range).
pub fn parse_u64(s: &str) -> (r: Option<u64>)
    ensures
        r matches Some(v) ==> fits_u64(s@) && v == dec_val(s@),
        r is None <==> !fits_u64(s@),
{
    let n = s.unicode_len();
    if n == 0 {
        return None;
    }
    let mut v: u64 = 0;
    let mut i: usize = 0;
    while i < n
        invariant
            n == s@.len(),
            0 < n,
            i <= n,
            all_digits(s@.subrange(0, i as int)),
            v == dec_val(s@.subrange(0, i as int)),
        decreases n - i,
    {
        let c = s.get_char(i);
        if !(c >= '0' && c <= '9') {
            proof {
                assert(!is_digit(s@[i as int]));
                assert(!all_digits(s@));
            }
            return None;
        }
        let d: u64 = (c as u32 - '0' as u32) as u64;
        let scaled = match v.checked_mul(10) {
            Some(x) => x,
            None => {
                proof {
                    lemma_no_fit(s@, i as int, v as int, d as int);
                }
                return None;
            },
        };
        let next = match scaled.checked_add(d) {
            Some(x) => x,
            None => {
                proof {
                    lemma_no_fit(s@, i as int, v as int, d as int);
                }
                return None;
            },
        };
        proof {
            assert(s@.subrange(0, i + 1).drop_last() =~= s@.subrange(0, i as int));
            assert(all_digits(s@.subrange(0, i + 1)));
        }
        v = next;
        i += 1;
    }
    proof {
        assert(s@.subrange(0, n as int) =~= s@);
    }
    Some(v)
}

/// When one more digit pushes the running value past `u64::MAX`, the
/// whole string cannot fit either: its value only grows with length.
proof fn lemma_no_fit(s: Seq<char>, i: int, v: int, d: int)
    requires
        0 <= i < s.len(),
        all_digits(s.subrange(0, i)),
        is_digit(s[i]),
        v == dec_val(s.subrange(0, i)),
        d == digit_val(s[i]),
        v * 10 + d > u64::MAX,
    ensures
        !fits_u64(s),
{
    if all_digits(s) {
        assert(s.subrange(0, i + 1).drop_last() =~= s.subrange(0, i));
        assert(dec_val(s.subrange(0, i + 1)) == v * 10 + d);
        lemma_dec_val_prefix_le(s, i + 1, s.len() as int);
        assert(s.subrange(0, s.len() as int) =~= s);
    }
}

/// Parses a decimal string into a `u32`, exactly when it is a non-empty
/// digit string whose value fits in a `u32`.
pub fn from_str(s: &str) -> (r: Option<u32>)
    ensures
        r matches Some(v) ==> s@.len() > 0 && all_digits(s@) && v == dec_val(s@),
        r is None <==> !(s@.len() > 0 && all_digits(s@) && dec_val(s@) <= u32::MAX),
{
    match parse_u64(s) {
        Some(v) => {
            if v <= 0xffff_ffff {
                Some(v as u32)
            } else {
                None
            }
        },
        None => {
            proof {
                if s@.len() > 0 && all_digits(s@) && dec_val(s@) <= u32::MAX {
                    assert(fits_u64(s@));
                }
            }
            None
        },
    }
}

/// Parses an optional decimal string into an optional `u32`: an absent
/// value parses to nothing; a present value must be a non-empty digit
/// string whose value fits, or the whole parse fails.
pub fn from_str_option(s: Option<&str>) -> (r: Result<Option<u32>, ()>)
    ensures
        s is None ==> r == Ok::<Option<u32>, ()>(None),
        s matches Some(t) ==> {
            &&& (t@.len() > 0 && all_digits(t@) && dec_val(t@) <= u32::MAX) <==> r is Ok
            &&& r matches Ok(o) ==> o matches Some(v) && v == dec_val(t@)
        },
{
    match s {
        None => Ok(None),
        Some(t) => match from_str(t) {
            Some(v) => Ok(Some(v)),
            None => Err(()),
        },
    }
}

/// Parses a decimal string of milliseconds into a duration, exactly
/// when it is a non-empty digit string whose value fits in a `u64`.
pub fn from_millis(s: &str) -> (r: Result<Duration, ()>)
    ensures
        r is Ok <==> fits_u64(s@),
        r matches Ok(d) ==> d.wf() && d.spec_millis() == dec_val(s@),
{
    match parse_u64(s) {
        Some(v) => Ok(Duration::from_millis(v)),
        None => Err(()),
    }
}

/// Parses an optional decimal string of milliseconds: an absent value
/// parses to nothing; a present value must denote a fitting number, or
/// the whole parse fails.
pub fn from_millis_option(s: Option<&str>) -> (r: Result<Option<Duration>, ()>)
    ensures
        s is None ==> r == Ok::<Option<Duration>, ()>(None),
        s matches Some(t) ==> {
            &&& r is Ok <==> fits_u64(t@)
            &&& r matches Ok(o) ==> o matches Some(d) && d.wf() && d.spec_millis() == dec_val(t@)
        },
{
    match s {
        None => Ok(None),
        Some(t) => match from_millis(t) {
            Ok(d) => Ok(Some(d)),
            Err(()) => Err(()),
        },
    }
}

/// Parses a decimal string of seconds into a duration, exactly when it
/// is a non-empty digit string whose value fits in a `u64`.
pub fn from_secs(s: &str) -> (r: Result<Duration, ()>)
    ensures
        r is Ok <==> fits_u64(s@),
        r matches Ok(d) ==> d.wf() && d.secs == dec_val(s@) && d.subsec_millis == 0,
{
    match parse_u64(s) {
        Some(v) => Ok(Duration::from_secs(v)),
        None => Err(()),
    }
}

/// Parses an optional decimal string of seconds: an absent value parses
/// to nothing; a present value must denote a fitting number, or the
/// whole parse fails.
pub fn from_secs_option(s: Option<&str>) -> (r: Result<Option<Duration>, ()>)
    ensures
        s is None ==> r == Ok::<Option<Duration>, ()>(None),
        s matches Some(t) ==> {
            &&& r is Ok <==> fits_u64(t@)
            &&& r matches Ok(o) ==> o matches Some(d) && d.wf() && d.secs == dec_val(t@)
                && d.subsec_millis == 0
        },
{
    match s {
        None => Ok(None),
        Some(t) => match from_secs(t) {
            Ok(d) => Ok(Some(d)),
            Err(()) => Err(()),
        },
    }
}

/// Whether a string is a valid media type. What `mime` accepts takes
/// pages to state, so it is named; it depends on the string alone.
pub uninterp spec fn mime_accepts(s: Seq<char>) -> bool;

/// The canonical text of a valid media type: what the parser keeps
/// (ASCII parts lowercased). It depends on the string alone.
pub uninterp spec fn mime_canonical(s: Seq<char>) -> Seq<char>;

/// The error type `mime` reports parse failures with.
#[verifier::external_type_specification]
#[verifier::external_body]
pub struct ExMimeFromStrError(mime::FromStrError);

/// Relies on `mime::Mime::from_str` and `mime::Mime::as_ref`: whether a
/// media-type string parses, and the canonical text the parsed value
/// keeps, are functions of the string alone (a pure byte-level parse
/// that lowercases ASCII as it goes).
#[verifier::external_body]
fn parse_media_type(s: &str) -> (r: Result<String, mime::FromStrError>)
    ensures
        r is Ok <==> mime_accepts(s@),
        r matches Ok(m) ==> m@ == mime_canonical(s@),
{
    match <mime::Mime as core::str::FromStr>::from_str(s) {
        Ok(m) => Ok(m.as_ref().to_owned()),
        Err(e) => Err(e),
    }
}

/// Reads an optional textual media type: an absent value stays absent;
/// a present value must be a valid media type and becomes its canonical
/// text, or the whole read fails.
pub fn option_from_str(s: Option<&str>) -> (r: Result<Option<String>, ()>)
    ensures
        s is None ==> r == Ok::<Option<String>, ()>(None),
        s matches Some(t) ==> {
            &&& r is Ok <==> mime_accepts(t@)
            &&& r matches Ok(o) ==> o matches Some(m) && m@ == mime_canonical(t@)
        },
{
    match s {
        None => Ok(None),
        Some(t) => match parse_media_type(t) {
            Ok(m) => Ok(Some(m)),
            Err(_) => Err(()),
        },
    }
}

/// Writes a media type's canonical text back out, unchanged.
pub fn to_str(m: &String) -> (r: String)
    ensures
        r@ == m@,
{
    m.clone()
}

/// Writes an optional media type's canonical text back out, unchanged.
pub fn option_to_str(m: &Option<String>) -> (r: Option<String>)
    ensures
        m is None ==> r is None,
        m matches Some(t) ==> r matches Some(o) && o@ == t@,
{
    match m {
        None => None,
        Some(t) => Some(t.clone()),
    }
}

} // verus!
