//! The wire format of the persisted records.
//!
//! The persistent store maps string keys to byte values. A suspension
//! record is keyed by the user identifier in decimal and holds the
//! expiry timestamp as eight big-endian bytes; the pinned
//! acknowledgement pointer holds channel then message, eight bytes
//! each. Both directions are verified, so every record written here
//! reads back as the same value after a restart.

use vstd::prelude::*;
use crate::errors::ModError;
use crate::ledger::PinnedAck;
use vstd::arithmetic::div_mod::lemma_fundamental_div_mod;

verus! {

/// The value of eight big-endian bytes.
pub open spec fn be_u64(s: Seq<u8>) -> u64
    recommends
        s.len() == 8,
{
    ((s[0] as u64) << 56) | ((s[1] as u64) << 48) | ((s[2] as u64) << 40) | ((s[3] as u64) << 32)
        | ((s[4] as u64) << 24) | ((s[5] as u64) << 16) | ((s[6] as u64) << 8) | (s[7] as u64)
}

/// The timestamp held by eight big-endian bytes (two's complement).
pub open spec fn be_timestamp(s: Seq<u8>) -> i64
    recommends
        s.len() == 8,
{
    be_u64(s) as i64
}

/// The pinned-message pointer held by sixteen bytes: channel, then message.
pub open spec fn be_pinned(s: Seq<u8>) -> PinnedAck
    recommends
        s.len() == 16,
{
    PinnedAck { channel: be_u64(s.subrange(0, 8)), message: be_u64(s.subrange(8, 16)) }
}

/// Appends `x` as eight big-endian bytes.
fn push_be_u64(out: &mut Vec<u8>, x: u64)
    ensures
        final(out)@.len() == old(out)@.len() + 8,
        final(out)@.subrange(0, old(out)@.len() as int) == old(out)@,
        be_u64(final(out)@.subrange(old(out)@.len() as int, final(out)@.len() as int)) == x,
{
    out.push(#[verifier::truncate] ((x >> 56) as u8));
    out.push(#[verifier::truncate] ((x >> 48) as u8));
    out.push(#[verifier::truncate] ((x >> 40) as u8));
    out.push(#[verifier::truncate] ((x >> 32) as u8));
    out.push(#[verifier::truncate] ((x >> 24) as u8));
    out.push(#[verifier::truncate] ((x >> 16) as u8));
    out.push(#[verifier::truncate] ((x >> 8) as u8));
    out.push(#[verifier::truncate] (x as u8));
    proof {
        let n = old(out)@.len() as int;
        let t = out@.subrange(n, n + 8);
        assert(out@.subrange(0, n) =~= old(out)@);
        assert(t[0] == (x >> 56) as u8 && t[1] == (x >> 48) as u8 && t[2] == (x >> 40) as u8
            && t[3] == (x >> 32) as u8 && t[4] == (x >> 24) as u8 && t[5] == (x >> 16) as u8
            && t[6] == (x >> 8) as u8 && t[7] == x as u8);
        assert(((((x >> 56) as u8) as u64) << 56) | ((((x >> 48) as u8) as u64) << 48)
            | ((((x >> 40) as u8) as u64) << 40) | ((((x >> 32) as u8) as u64) << 32)
            | ((((x >> 24) as u8) as u64) << 24) | ((((x >> 16) as u8) as u64) << 16)
            | ((((x >> 8) as u8) as u64) << 8) | ((x as u8) as u64) == x) by (bit_vector);
    }
}

/// Reads the eight big-endian bytes at `off`.
fn read_be_u64(s: &[u8], off: usize) -> (r: u64)
    requires
        off + 8 <= s@.len(),
    ensures
        r == be_u64(s@.subrange(off as int, off as int + 8)),
{
    let r = ((s[off] as u64) << 56) | ((s[off + 1] as u64) << 48) | ((s[off + 2] as u64) << 40)
        | ((s[off + 3] as u64) << 32) | ((s[off + 4] as u64) << 24) | ((s[off + 5] as u64) << 16)
        | ((s[off + 6] as u64) << 8) | (s[off + 7] as u64);
    proof {
        let t = s@.subrange(off as int, off as int + 8);
        assert(t[0] == s@[off as int] && t[1] == s@[off as int + 1] && t[2] == s@[off as int + 2]
            && t[3] == s@[off as int + 3] && t[4] == s@[off as int + 4] && t[5] == s@[off as int
            + 5] && t[6] == s@[off as int + 6] && t[7] == s@[off as int + 7]);
    }
    r
}

/// Encodes an expiry timestamp as eight big-endian bytes.
pub fn encode_timestamp(t: i64) -> (r: Vec<u8>)
    ensures
        r@.len() == 8,
        be_timestamp(r@) == t,
{
    let mut out: Vec<u8> = Vec::new();
    push_be_u64(&mut out, #[verifier::truncate] (t as u64));
    proof {
        assert(out@.subrange(0, 8) =~= out@);
        assert(((t as u64) as i64) == t) by (bit_vector);
    }
    out
}

/// Decodes an expiry timestamp; any length other than eight is malformed.
pub fn decode_timestamp(s: &[u8]) -> (r: Option<i64>)
    ensures
        s@.len() == 8 ==> r == Some(be_timestamp(s@)),
        s@.len() != 8 ==> r is None,
{
    if s.len() != 8 {
        return None;
    }
    let x = read_be_u64(s, 0);
    proof {
        assert(s@.subrange(0, 8) =~= s@);
    }
    Some(#[verifier::truncate] (x as i64))
}

/// Encodes the pinned-message pointer as sixteen bytes.
pub fn encode_pinned(p: &PinnedAck) -> (r: Vec<u8>)
    ensures
        r@.len() == 16,
        be_pinned(r@) == *p,
{
    let mut out: Vec<u8> = Vec::new();
    push_be_u64(&mut out, p.channel);
    let ghost first = out@;
    push_be_u64(&mut out, p.message);
    proof {
        assert(out@.subrange(0, 8) == first);
        assert(first.subrange(0, 8) =~= first);
        assert(be_u64(out@.subrange(0, 8)) == p.channel);
    }
    out
}

/// Decodes the pinned-message pointer; any length other than sixteen
/// is malformed.
pub fn decode_pinned(s: &[u8]) -> (r: Option<PinnedAck>)
    ensures
        s@.len() == 16 ==> r == Some(be_pinned(s@)),
        s@.len() != 16 ==> r is None,
{
    if s.len() != 16 {
        return None;
    }
    let channel = read_be_u64(s, 0);
    let message = read_be_u64(s, 8);
    Some(PinnedAck { channel, message })
}

/// The decimal digits of `n`, most significant first, no leading zero.
pub open spec fn dec_digits(n: nat) -> Seq<u8>
    decreases n,
{
    if n < 10 {
        seq![(48 + n) as u8]
    } else {
        dec_digits(n / 10).push((48 + n % 10) as u8)
    }
}

/// All bytes are ASCII digits and there is at least one.
pub open spec fn is_dec_seq(s: Seq<u8>) -> bool {
    s.len() > 0 && forall|i: int| 0 <= i < s.len() ==> 48 <= #[trigger] s[i] <= 57
}

/// The number a digit string denotes.
pub open spec fn dec_value(s: Seq<u8>) -> int
    decreases s.len(),
{
    if s.len() == 0 {
        0
    } else {
        dec_value(s.drop_last()) * 10 + s.last() - 48
    }
}

/// What a byte string parses to as a user identifier: the denoted
/// number, provided every byte is a digit and the value fits in u64.
pub open spec fn parse_user_spec(s: Seq<u8>) -> Option<u64> {
    if is_dec_seq(s) && dec_value(s) <= u64::MAX {
        Some(dec_value(s) as u64)
    } else {
        None
    }
}

/// The digits of `n` denote `n`, and start with a zero only for zero itself.
pub proof fn lemma_dec_digits_value(n: nat)
    ensures
        is_dec_seq(dec_digits(n)),
        dec_value(dec_digits(n)) == n,
    decreases n,
{
    if n < 10 {
        let s = dec_digits(n);
        assert(s.len() == 1 && s[0] == 48 + n);
        assert(s.drop_last() =~= Seq::<u8>::empty());
        assert(s.last() == 48 + n);
        assert(dec_value(s.drop_last()) == 0);
        assert(dec_value(s) == dec_value(s.drop_last()) * 10 + s.last() - 48);
    } else {
        lemma_dec_digits_value(n / 10);
        let p = dec_digits(n / 10);
        let s = dec_digits(n);
        assert(s == p.push((48 + n % 10) as u8));
        assert(s.drop_last() =~= p);
        assert(s.last() == 48 + n % 10);
        assert(dec_value(s) == dec_value(p) * 10 + s.last() - 48);
        lemma_fundamental_div_mod(n as int, 10);
        assert(dec_value(s) == (n / 10) * 10 + n % 10);
    }
}

/// A digit string denotes a nonnegative number.
proof fn lemma_dec_value_nonneg(s: Seq<u8>)
    requires
        forall|i: int| 0 <= i < s.len() ==> 48 <= #[trigger] s[i] <= 57,
    ensures
        dec_value(s) >= 0,
    decreases s.len(),
{
    if s.len() > 0 {
        lemma_dec_value_nonneg(s.drop_last());
    }
}

/// Extending a digit string never shrinks its value.
proof fn lemma_dec_prefix_mono(s: Seq<u8>, i: int)
    requires
        forall|k: int| 0 <= k < s.len() ==> 48 <= #[trigger] s[k] <= 57,
        0 <= i <= s.len(),
    ensures
        dec_value(s.take(i)) <= dec_value(s),
    decreases s.len() - i,
{
    if i == s.len() {
        assert(s.take(i) =~= s);
    } else {
        let a = s.take(i);
        let b = s.take(i + 1);
        assert(b.drop_last() =~= a);
        assert(b.last() == s[i]);
        lemma_dec_value_nonneg(a);
        assert(dec_value(b) == dec_value(a) * 10 + s[i] - 48);
        lemma_dec_prefix_mono(s, i + 1);
    }
}

/// Renders a user identifier in decimal, exactly as the platform's
/// string form writes it.
pub fn format_user_id(user: u64) -> (r: Vec<u8>)
    ensures
        r@ == dec_digits(user as nat),
        parse_user_spec(r@) == Some(user),
    decreases user,
{
    let mut out: Vec<u8>;
    if user < 10 {
        out = Vec::new();
        out.push(48 + user as u8);
        proof {
            assert(out@ =~= dec_digits(user as nat));
        }
    } else {
        out = format_user_id(user / 10);
        out.push(48 + (user % 10) as u8);
        proof {
            assert(out@ =~= dec_digits(user as nat));
        }
    }
    proof {
        lemma_dec_digits_value(user as nat);
    }
    out
}

/// Parses a user identifier from its decimal string form. Returns the
/// denoted number exactly when every byte is a digit, there is at
/// least one, and the value fits; everything else is a malformed
/// identifier.
pub fn parse_user_id(s: &[u8]) -> (r: Result<u64, ModError>)
    ensures
        match parse_user_spec(s@) {
            Some(n) => r == Ok::<u64, ModError>(n),
            None => r == Err::<u64, ModError>(ModError::MalformedIdentifier),
        },
{
    if s.len() == 0 {
        return Err(ModError::MalformedIdentifier);
    }
    let mut acc: u64 = 0;
    let mut i: usize = 0;
    while i < s.len()
        invariant
            0 < s@.len(),
            i <= s@.len(),
            forall|k: int| 0 <= k < i ==> 48 <= #[trigger] s@[k] <= 57,
            acc == dec_value(s@.take(i as int)),
        decreases s@.len() - i,
    {
        let c = s[i];
        if c < 48 || c > 57 {
            return Err(ModError::MalformedIdentifier);
        }
        let d = (c - 48) as u64;
        proof {
            assert(s@.take(i as int + 1).drop_last() =~= s@.take(i as int));
            assert(s@.take(i as int + 1).last() == s@[i as int]);
        }
        if acc > (u64::MAX - d) / 10 {
            proof {
                assert(dec_value(s@.take(i as int + 1)) == acc * 10 + d);
                assert(acc * 10 + d > u64::MAX) by (nonlinear_arith)
                    requires
                        acc > (u64::MAX - d) / 10,
                        d <= 9;
                if is_dec_seq(s@) {
                    lemma_dec_prefix_mono(s@, i as int + 1);
                }
            }
            return Err(ModError::MalformedIdentifier);
        }
        acc = acc * 10 + d;
        i = i + 1;
    }
    proof {
        assert(s@.take(i as int) =~= s@);
        assert(is_dec_seq(s@));
    }
    Ok(acc)
}

} // verus!
