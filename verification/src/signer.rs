//! Request signing: a canonical query string over an explicitly ordered
//! parameter sequence, authenticated with HMAC-SHA256 and appended as a
//! lowercase-hex `signature` parameter.

use vstd::prelude::*;
use crate::decimal::push_bytes;
use hmac::{Hmac, KeyInit, Mac};
use sha2::Sha256;

verus! {

/// The 32 bytes HMAC-SHA256 produces for a key and a message. The outcome is
/// a pure function of the two inputs alone; its definition is left with the
/// crates that compute it.
pub uninterp spec fn hmac_sha256_of(key: Seq<u8>, msg: Seq<u8>) -> Seq<u8>;

/// Lowercase hex digit for a nibble value.
pub open spec fn hex_digit(n: int) -> u8 {
    if n < 10 {
        (48 + n) as u8
    } else {
        (87 + n) as u8
    }
}

/// Lowercase hex encoding, high nibble of each byte first.
pub open spec fn hex_lower_of(bs: Seq<u8>) -> Seq<u8>
    decreases bs.len(),
{
    if bs.len() == 0 {
        Seq::empty()
    } else {
        hex_lower_of(bs.drop_last()) + seq![
            hex_digit(bs.last() as int / 16),
            hex_digit(bs.last() as int % 16),
        ]
    }
}

pub proof fn lemma_hex_lower_len(bs: Seq<u8>)
    ensures
        hex_lower_of(bs).len() == 2 * bs.len(),
    decreases bs.len(),
{
    if bs.len() > 0 {
        lemma_hex_lower_len(bs.drop_last());
    }
}

/// Relies on `hmac::Hmac` over `sha2::Sha256`: the MAC is a deterministic
/// function of key and message alone and is 32 bytes long; for HMAC,
/// `new_from_slice` accepts keys of any length and never fails.
#[verifier::external_body]
fn hmac_sha256(key: &Vec<u8>, msg: &Vec<u8>) -> (r: Vec<u8>)
    ensures
        r@ == hmac_sha256_of(key@, msg@),
        r@.len() == 32,
{
    let mut mac = <Hmac<Sha256> as KeyInit>::new_from_slice(key.as_slice()).expect(
        "HMAC accepts keys of any length",
    );
    mac.update(msg.as_slice());
    mac.finalize().into_bytes().to_vec()
}

/// Relies on `hex::encode`: two lowercase hex digits per byte, high nibble
/// first.
#[verifier::external_body]
fn hex_lower(bytes: &Vec<u8>) -> (r: Vec<u8>)
    ensures
        r@ == hex_lower_of(bytes@),
{
    hex::encode(bytes.as_slice()).into_bytes()
}

/// A byte that needs no percent escaping: an unreserved URI byte — a letter,
/// a digit, or one of `-` `.` `_` `~`.
pub open spec fn percent_safe_byte(b: u8) -> bool {
    (48 <= b <= 57) || (65 <= b <= 90) || (97 <= b <= 122) || b == 45 || b == 46 || b == 95 || b
        == 126
}

/// Free of characters requiring escaping: the signer never escapes, so every
/// parameter key and value handed to it must already read this way.
pub open spec fn percent_safe(s: Seq<u8>) -> bool {
    forall|i: int| 0 <= i < s.len() ==> percent_safe_byte(#[trigger] s[i])
}

/// Both halves of one parameter are percent-safe.
pub open spec fn pair_percent_safe(p: (Seq<u8>, Seq<u8>)) -> bool {
    percent_safe(p.0) && percent_safe(p.1)
}

pub open spec fn pairs_percent_safe(ps: Seq<(Seq<u8>, Seq<u8>)>) -> bool {
    forall|i: int| 0 <= i < ps.len() ==> #[trigger] pair_percent_safe(ps[i])
}

/// Decides percent-safety of a byte string, for callers at the boundary that
/// receive parameters from outside and must test them before signing.
pub fn percent_safe_bytes(s: &Vec<u8>) -> (r: bool)
    ensures
        r == percent_safe(s@),
{
    let mut i: usize = 0;
    while i < s.len()
        invariant
            i <= s@.len(),
            forall|j: int| 0 <= j < i ==> percent_safe_byte(#[trigger] s@[j]),
        decreases s@.len() - i,
    {
        let b = s[i];
        let ok = (48 <= b && b <= 57) || (65 <= b && b <= 90) || (97 <= b && b <= 122) || b == 45
            || b == 46 || b == 95 || b == 126;
        if !ok {
            proof {
                assert(!percent_safe_byte(s@[i as int]));
            }
            return false;
        }
        i = i + 1;
    }
    true
}

/// A string of decimal digits is percent-safe.
pub proof fn lemma_digits_percent_safe(s: Seq<u8>)
    requires
        crate::decimal::all_digits(s),
    ensures
        percent_safe(s),
{
}

/// One parameter as `key=value`.
pub open spec fn pair_bytes(p: (Seq<u8>, Seq<u8>)) -> Seq<u8> {
    p.0 + seq![61u8] + p.1
}

/// `key=value` pairs joined by `&`, in exactly the order given: the exchange
/// verifies the signature over this very byte sequence, so the order must be
/// deterministic and caller-chosen, never that of an unordered map.
pub open spec fn canonical_query(ps: Seq<(Seq<u8>, Seq<u8>)>) -> Seq<u8>
    decreases ps.len(),
{
    if ps.len() == 0 {
        Seq::empty()
    } else if ps.len() == 1 {
        pair_bytes(ps[0])
    } else {
        canonical_query(ps.drop_last()) + seq![38u8] + pair_bytes(ps.last())
    }
}

pub open spec fn pairs_view(ps: Seq<(Vec<u8>, Vec<u8>)>) -> Seq<(Seq<u8>, Seq<u8>)> {
    ps.map_values(|p: (Vec<u8>, Vec<u8>)| (p.0@, p.1@))
}

/// The bytes of `&signature=`.
pub open spec fn sig_tag() -> Seq<u8> {
    seq![38u8, 115u8, 105u8, 103u8, 110u8, 97u8, 116u8, 117u8, 114u8, 101u8, 61u8]
}

/// Lowercase-hex HMAC-SHA256 signature of a query under a secret.
pub open spec fn signature_hex(query: Seq<u8>, secret: Seq<u8>) -> Seq<u8> {
    hex_lower_of(hmac_sha256_of(secret, query))
}

/// The full signed query: the canonical query, then `&signature=`, then the
/// signature of the canonical query.
pub open spec fn signed_query(ps: Seq<(Seq<u8>, Seq<u8>)>, secret: Seq<u8>) -> Seq<u8> {
    canonical_query(ps) + sig_tag() + signature_hex(canonical_query(ps), secret)
}

/// Signer determinism: for one parameter ordering and one secret, signing
/// twice yields the identical signed query; nothing else enters the result.
pub proof fn lemma_signer_deterministic(
    ps1: Seq<(Seq<u8>, Seq<u8>)>,
    secret1: Seq<u8>,
    ps2: Seq<(Seq<u8>, Seq<u8>)>,
    secret2: Seq<u8>,
)
    requires
        ps1 == ps2,
        secret1 == secret2,
    ensures
        signed_query(ps1, secret1) == signed_query(ps2, secret2),
{
}

/// Joins `key=value` pairs with `&`, in exactly the order given.
pub fn build_query(params: &Vec<(Vec<u8>, Vec<u8>)>) -> (r: Vec<u8>)
    ensures
        r@ == canonical_query(pairs_view(params@)),
{
    let mut out: Vec<u8> = Vec::new();
    let mut i: usize = 0;
    while i < params.len()
        invariant
            i <= params@.len(),
            out@ == canonical_query(pairs_view(params@).take(i as int)),
        decreases params@.len() - i,
    {
        if i > 0 {
            out.push(38);
        }
        push_bytes(&mut out, &params[i].0);
        out.push(61);
        push_bytes(&mut out, &params[i].1);
        proof {
            let ps = pairs_view(params@);
            assert(ps[i as int] == (params@[i as int].0@, params@[i as int].1@));
            assert(ps.take(i + 1 as int).drop_last() =~= ps.take(i as int));
            assert(ps.take(i + 1 as int).last() == ps[i as int]);
            if i == 0 {
                assert(ps.take(1)[0] == ps[0]);
                assert(out@ =~= pair_bytes(ps[0]));
            } else {
                assert(out@ =~= canonical_query(ps.take(i as int)) + seq![38u8] + pair_bytes(
                    ps[i as int],
                ));
            }
        }
        i = i + 1;
    }
    proof {
        assert(pairs_view(params@).take(params@.len() as int) =~= pairs_view(params@));
    }
    out
}

/// HMAC-SHA256 signature of a query string under the API secret, as 64
/// lowercase hex digits.
pub fn binance_signature(query: &Vec<u8>, secret: &Vec<u8>) -> (r: Vec<u8>)
    ensures
        r@ == signature_hex(query@, secret@),
        r@.len() == 64,
{
    let mac = hmac_sha256(secret, query);
    let r = hex_lower(&mac);
    proof {
        lemma_hex_lower_len(mac@);
    }
    r
}

/// Builds the canonical query for `params`, signs it with `secret`, and
/// appends the `signature` parameter, exactly as the exchange verifies it.
/// Keys and values must already be percent-safe: nothing is escaped here,
/// that duty is the caller's.
pub fn build_signed_query(params: &Vec<(Vec<u8>, Vec<u8>)>, secret: &Vec<u8>) -> (r: Vec<u8>)
    requires
        pairs_percent_safe(pairs_view(params@)),
    ensures
        r@ == signed_query(pairs_view(params@), secret@),
{
    let mut out = build_query(params);
    let sig = binance_signature(&out, secret);
    out.push(38);
    out.push(115);
    out.push(105);
    out.push(103);
    out.push(110);
    out.push(97);
    out.push(116);
    out.push(117);
    out.push(114);
    out.push(101);
    out.push(61);
    proof {
        assert(out@ =~= canonical_query(pairs_view(params@)) + sig_tag());
    }
    push_bytes(&mut out, &sig);
    proof {
        assert(out@ =~= signed_query(pairs_view(params@), secret@));
    }
    out
}

} // verus!
