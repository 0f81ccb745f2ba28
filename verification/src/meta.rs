//! Unwrapping the metadata endpoint's envelope: the endpoint answers
//! with a URL-encoded form body whose `player_response` field carries
//! the JSON payload describing the video. This module decodes the form
//! and picks that field out; the transport that fetches the body and
//! the JSON deserialization of the payload live with the caller.

use vstd::prelude::*;

use crate::errors::MetadataError;

verus! {

/// The decoded key-value pairs of a URL-encoded form body, in document
/// order. What a pair's text is involves percent-decoding and UTF-8
/// repair, so the pairs are named rather than spelled out; the logic
/// below takes them as given.
pub uninterp spec fn form_pairs_of(body: Seq<u8>) -> Seq<(Seq<char>, Seq<char>)>;

/// The error type `serde_urlencoded` reports decode failures with.
#[verifier::external_type_specification]
#[verifier::external_body]
pub struct ExDeserializeError(serde::de::value::Error);

/// Relies on `serde_urlencoded::from_bytes`: decodes an
/// `application/x-www-form-urlencoded` body into its key-value pairs,
/// in document order. For this target type the decode succeeds on every
/// body: splitting on `&` and `=` cannot fail, percent-decoding and
/// UTF-8 repair are lossy rather than failing, and each decoded pair is
/// exactly two strings, which always deserialize.
#[verifier::external_body]
fn decode_form(body: &[u8]) -> (r: Result<Vec<(String, String)>, serde::de::value::Error>)
    ensures
        r is Ok,
        r matches Ok(pairs) ==> pair_views(pairs@) == form_pairs_of(body@),
{
    serde_urlencoded::from_bytes::<Vec<(String, String)>>(body)
}

/// The views of a sequence of string pairs, element by element.
pub open spec fn pair_views(pairs: Seq<(String, String)>) -> Seq<(Seq<char>, Seq<char>)> {
    pairs.map_values(|p: (String, String)| (p.0@, p.1@))
}

/// The value of the first pair whose key matches, if any.
pub open spec fn first_value(pairs: Seq<(Seq<char>, Seq<char>)>, key: Seq<char>) -> Option<
    Seq<char>,
>
    decreases pairs.len(),
{
    if pairs.len() == 0 {
        None
    } else if pairs[0].0 == key {
        Some(pairs[0].1)
    } else {
        first_value(pairs.drop_first(), key)
    }
}

/// Picks the value of the first pair whose key equals `key`, exactly
/// when one exists.
pub fn find_field(pairs: &Vec<(String, String)>, key: &String) -> (r: Option<String>)
    ensures
        r matches Some(v) ==> first_value(pair_views(pairs@), key@) == Some(v@),
        r is None <==> first_value(pair_views(pairs@), key@) is None,
{
    let ghost pv = pair_views(pairs@);
    let mut i: usize = 0;
    proof {
        assert(pv.subrange(0, pv.len() as int) =~= pv);
    }
    while i < pairs.len()
        invariant
            i <= pairs.len(),
            pv == pair_views(pairs@),
            first_value(pv, key@) == first_value(pv.subrange(i as int, pv.len() as int), key@),
        decreases pairs.len() - i,
    {
        let ghost rem = pv.subrange(i as int, pv.len() as int);
        if pairs[i].0 == *key {
            proof {
                assert(rem[0] == pv[i as int]);
                assert(first_value(rem, key@) == Some(pv[i as int].1));
            }
            return Some(pairs[i].1.clone());
        }
        proof {
            assert(rem[0] == pv[i as int]);
            assert(rem.drop_first() =~= pv.subrange(i + 1, pv.len() as int));
        }
        i += 1;
    }
    proof {
        assert(pv.subrange(pv.len() as int, pv.len() as int) =~= Seq::<(Seq<char>, Seq<char>)>::empty());
    }
    None
}

/// Unwraps the metadata endpoint's envelope: decodes the URL-encoded
/// body and returns its `player_response` field, the JSON payload.
/// Succeeds exactly when the decoded form carries that field; fails
/// with [`MetadataError::Envelope`] otherwise.
pub fn extract_player_response(body: &[u8]) -> (r: Result<String, MetadataError>)
    ensures
        r is Ok <==> first_value(form_pairs_of(body@), "player_response"@) is Some,
        r matches Ok(s) ==> first_value(form_pairs_of(body@), "player_response"@) == Some(s@),
        r matches Err(e) ==> e == MetadataError::Envelope,
{
    let pairs = match decode_form(body) {
        Ok(p) => p,
        Err(_) => {
            // The decode is total for this target type; this arm is
            // provably unreachable.
            return Err(MetadataError::Envelope);
        },
    };
    let key: String = "player_response".to_owned();
    match find_field(&pairs, &key) {
        Some(v) => Ok(v),
        None => Err(MetadataError::Envelope),
    }
}

} // verus!
