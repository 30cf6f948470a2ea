//! The short-opaque-identifier codec: a reversible mapping between numeric
//! task ids and short human-typable strings over a fixed 36-character
//! alphabet, with a minimum rendered length of 5.
use vstd::prelude::*;

verus! {

/// Errors from decoding an encoded task id.
#[derive(Clone, Copy, Debug, PartialEq, Eq, Structural)]
pub enum DecodeError {
    /// The string contains characters outside the id alphabet or does not
    /// correspond to any encoded id.
    Invalid,
}

/// The fixed alphabet that encoded task ids are drawn from.
pub open spec fn id_alphabet() -> Seq<char> {
    "1234567890abcdefghijklmnopqrstuvwxyz"@
}

/// The string that the encoder produces for a given id, or `None` on the
/// ids for which it gives up. The encoder is deterministic, so this is a
/// function of the id alone.
pub uninterp spec fn sqids_str(i: u64) -> Option<Seq<char>>;

/// The id a string stands for: the one id the encoder maps to it, if any.
pub open spec fn canonical_id(s: Seq<char>) -> Option<u64> {
    if exists|n: u64| sqids_str(n) == Some(s) {
        Some(choose|n: u64| sqids_str(n) == Some(s))
    } else {
        None
    }
}

/// Relies on sqids::Sqids::encode, with the encoder built by
/// sqids::SqidsBuilder from the fixed 36-character alphabet and minimum
/// length 5: encoding is deterministic, the result is padded to the minimum
/// length, and every character of it comes from the alphabet.
#[verifier::external_body]
fn sqids_encode(i: u64) -> (r: Option<String>)
    ensures
        r matches Some(s) ==> sqids_str(i) == Some(s@),
        r is None ==> sqids_str(i) is None,
        r matches Some(s) ==> s@.len() >= 5,
        r matches Some(s) ==> forall|k: int| 0 <= k < s@.len() ==> id_alphabet().contains(#[trigger] s@[k]),
{
    let sqids = match sqids::Sqids::builder()
        .min_length(5)
        .alphabet("1234567890abcdefghijklmnopqrstuvwxyz".chars().collect())
        .build()
    {
        Ok(s) => s,
        Err(_) => return None,
    };
    sqids.encode(&[i]).ok()
}

/// Relies on sqids::Sqids::decode, with the same encoder configuration:
/// decoding a string the encoder produced returns exactly the number it was
/// made from, and a string with a character outside the alphabet, or the
/// empty string, decodes to nothing.
#[verifier::external_body]
fn sqids_decode(s: &str) -> (r: Vec<u64>)
    ensures
        forall|n: u64| #[trigger] sqids_str(n) == Some(s@) ==> r@ == seq![n],
        (exists|k: int| 0 <= k < s@.len() && !id_alphabet().contains(#[trigger] s@[k])) ==> r@ == Seq::<u64>::empty(),
        s@.len() == 0 ==> r@ == Seq::<u64>::empty(),
{
    let sqids = match sqids::Sqids::builder()
        .min_length(5)
        .alphabet("1234567890abcdefghijklmnopqrstuvwxyz".chars().collect())
        .build()
    {
        Ok(s) => s,
        Err(_) => return Vec::new(),
    };
    sqids.decode(s)
}

/// Encode a task id as its short public string form. `None` only on the
/// ids for which the encoder gives up.
pub fn encode_id(i: u64) -> (r: Option<String>)
    ensures
        r matches Some(s) ==> sqids_str(i) == Some(s@),
        r is None <==> sqids_str(i) is None,
        r matches Some(s) ==> s@.len() >= 5,
        r matches Some(s) ==> forall|k: int| 0 <= k < s@.len() ==> id_alphabet().contains(#[trigger] s@[k]),
{
    sqids_encode(i)
}

fn str_equal(a: &str, b: &str) -> (r: bool)
    ensures
        r == (a@ == b@),
{
    let n = a.unicode_len();
    if n != b.unicode_len() {
        return false;
    }
    let mut i: usize = 0;
    while i < n
        invariant
            i <= n,
            n == a@.len(),
            n == b@.len(),
            forall|k: int| 0 <= k < i ==> a@[k] == b@[k],
        decreases n - i,
    {
        if a.get_char(i) != b.get_char(i) {
            return false;
        }
        i += 1;
    }
    proof {
        assert(a@ =~= b@);
    }
    true
}

/// Decode a short id string back to the task id it stands for. Succeeds
/// exactly on the strings the encoder produces: anything else — a
/// character outside the alphabet, the empty string, or a string no id
/// encodes to — fails with `DecodeError::Invalid`.
pub fn decode_id(s: &str) -> (r: Result<u64, DecodeError>)
    ensures
        r == match canonical_id(s@) {
            Some(n) => Ok::<u64, DecodeError>(n),
            None => Err::<u64, DecodeError>(DecodeError::Invalid),
        },
        forall|n: u64| #[trigger] sqids_str(n) == Some(s@) ==> r == Ok::<u64, DecodeError>(n),
        (exists|k: int| 0 <= k < s@.len() && !id_alphabet().contains(#[trigger] s@[k]))
            ==> r == Err::<u64, DecodeError>(DecodeError::Invalid),
        s@.len() == 0 ==> r == Err::<u64, DecodeError>(DecodeError::Invalid),
{
    let nums = sqids_decode(s);
    if nums.len() == 0 {
        return Err(DecodeError::Invalid);
    }
    let n = nums[0];
    // The decoder reads numbers out of strings the encoder never produces;
    // only an id whose encoding is this very string decodes to it.
    match sqids_encode(n) {
        Some(reencoded) => {
            if str_equal(reencoded.as_str(), s) {
                Ok(n)
            } else {
                Err(DecodeError::Invalid)
            }
        },
        None => Err(DecodeError::Invalid),
    }
}

/// Round trip: an id that encodes successfully always decodes back to
/// itself, and the round trip never lands on a different id.
pub fn encode_decode_round_trip(i: u64) -> (r: Option<u64>)
    ensures
        sqids_str(i) is Some ==> r == Some(i),
        r matches Some(n) ==> n == i,
{
    match encode_id(i) {
        Some(s) => {
            match decode_id(s.as_str()) {
                Ok(n) => Some(n),
                Err(_) => None,
            }
        },
        None => None,
    }
}

/// Injectivity: two distinct ids that both encode successfully never share
/// an encoding.
pub fn encode_injective(i1: u64, i2: u64) -> (r: Option<(String, String)>)
    requires
        i1 != i2,
    ensures
        r matches Some(p) ==> sqids_str(i1) == Some(p.0@) && sqids_str(i2) == Some(p.1@) && p.0@ != p.1@,
        sqids_str(i1) is Some && sqids_str(i2) is Some ==> r is Some,
{
    match (encode_id(i1), encode_id(i2)) {
        (Some(s1), Some(s2)) => {
            // Decoding the first string is what separates the two encodings:
            // it can only return the one id the string was made from.
            let _probe = decode_id(s1.as_str());
            proof {
                if s1@ == s2@ {
                    assert(_probe == Ok::<u64, DecodeError>(i1));
                    assert(_probe == Ok::<u64, DecodeError>(i2));
                    assert(false);
                }
            }
            Some((s1, s2))
        },
        _ => None,
    }
}

} // verus!
