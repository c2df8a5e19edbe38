//! Probe message framing: a fixed 16-byte ASCII tag `"Ping send_count="`
//! followed by the decimal text of an unsigned 64-bit counter.

use vstd::prelude::*;

verus! {

/// Length in bytes of the fixed probe tag.
pub const TAG_LEN: usize = 16;

/// The fixed ASCII tag `"Ping send_count="` that opens every probe message.
pub open spec fn tag_bytes() -> Seq<u8> {
    seq![
        80u8, 105u8, 110u8, 103u8, 32u8, 115u8, 101u8, 110u8,
        100u8, 95u8, 99u8, 111u8, 117u8, 110u8, 116u8, 61u8,
    ]
}

/// The decimal digits of `n` as ASCII bytes, most significant first,
/// with no sign and no leading zero (except for `n == 0` itself).
pub open spec fn dec_bytes(n: nat) -> Seq<u8>
    decreases n,
{
    if n < 10 {
        seq![(48 + n) as u8]
    } else {
        dec_bytes(n / 10) + seq![(48 + n % 10) as u8]
    }
}

/// A whole probe message: the tag followed by the counter in decimal.
pub open spec fn probe_bytes(n: nat) -> Seq<u8> {
    tag_bytes() + dec_bytes(n)
}

/// Builds the probe tag as a byte vector.
pub fn tag() -> (r: Vec<u8>)
    ensures
        r@ == tag_bytes(),
{
    let mut t: Vec<u8> = Vec::new();
    t.push(80u8);
    t.push(105u8);
    t.push(110u8);
    t.push(103u8);
    t.push(32u8);
    t.push(115u8);
    t.push(101u8);
    t.push(110u8);
    t.push(100u8);
    t.push(95u8);
    t.push(99u8);
    t.push(111u8);
    t.push(117u8);
    t.push(110u8);
    t.push(116u8);
    t.push(61u8);
    proof {
        assert(t@ =~= tag_bytes());
    }
    t
}

/// Appends the decimal digits of `n` to `out`, most significant first.
fn push_decimal(out: &mut Vec<u8>, n: u64)
    ensures
        final(out)@ == old(out)@ + dec_bytes(n as nat),
    decreases n,
{
    if n >= 10 {
        push_decimal(out, n / 10);
    }
    out.push((n % 10) as u8 + 48);
    proof {
        assert(out@ =~= old(out)@ + dec_bytes(n as nat));
    }
}

/// Encodes a probe message carrying `count`: the tag, then `count` in decimal.
pub fn encode_probe(count: u64) -> (r: Vec<u8>)
    ensures
        r@ == probe_bytes(count as nat),
{
    let mut out = tag();
    push_decimal(&mut out, count);
    out
}

/// True when `b` is an ASCII decimal digit.
pub open spec fn is_digit(b: u8) -> bool {
    48 <= b <= 57
}

/// True when every byte of `s` is an ASCII decimal digit.
pub open spec fn all_digits(s: Seq<u8>) -> bool {
    forall|i: int| 0 <= i < s.len() ==> is_digit(s[i])
}

/// The value of the digit string `s`, most significant digit first.
pub open spec fn dec_val(s: Seq<u8>) -> int
    decreases s.len(),
{
    if s.len() == 0 {
        0
    } else {
        dec_val(s.drop_last()) * 10 + s.last() - 48
    }
}

/// The digit part of a counter image: a single leading ASCII `+` is
/// tolerated (and ignored), as an unsigned decimal parser tolerates it.
pub open spec fn counter_digits(s: Seq<u8>) -> Seq<u8> {
    if s.len() > 0 && s[0] == 43 {
        s.skip(1)
    } else {
        s
    }
}

/// True when `s` is a well-formed counter image: after the optional
/// leading `+`, at least one byte, all of them decimal digits, and of a
/// value that fits in 64 bits. Leading zeros are allowed, just as an
/// unsigned decimal parser allows them.
pub open spec fn valid_counter(s: Seq<u8>) -> bool {
    &&& counter_digits(s).len() > 0
    &&& all_digits(counter_digits(s))
    &&& dec_val(counter_digits(s)) <= u64::MAX
}

/// What one inbound datagram means to the emitter.
#[derive(Debug, Clone, Copy, PartialEq, Eq, Structural)]
pub enum Inbound {
    /// Fewer bytes than the tag is long: discarded before any tag
    /// comparison or parse is attempted.
    TooShort,
    /// The tag matched and the remainder parsed as a 64-bit counter.
    Probe { count: u64 },
    /// The tag matched but the remainder is not the decimal text of a
    /// 64-bit counter (empty, a non-digit byte, or too large).
    BadCounter,
    /// The first bytes are not the probe tag.
    UnknownTag,
}

/// The classification of a received datagram `data`.
pub open spec fn classify_spec(data: Seq<u8>) -> Inbound {
    if data.len() < TAG_LEN {
        Inbound::TooShort
    } else if data.take(TAG_LEN as int) != tag_bytes() {
        Inbound::UnknownTag
    } else if valid_counter(data.skip(TAG_LEN as int)) {
        Inbound::Probe { count: dec_val(counter_digits(data.skip(TAG_LEN as int))) as u64 }
    } else {
        Inbound::BadCounter
    }
}

/// A digit string made only of digits stays only digits when truncated.
proof fn lemma_all_digits_take(s: Seq<u8>, k: int)
    requires
        0 <= k <= s.len(),
        all_digits(s),
    ensures
        all_digits(s.take(k)),
{
    assert forall|i: int| 0 <= i < s.take(k).len() implies is_digit(s.take(k)[i]) by {
        assert(s.take(k)[i] == s[i]);
    }
}

/// The value of a string of digits is never negative.
proof fn lemma_dec_val_nonneg(s: Seq<u8>)
    requires
        all_digits(s),
    ensures
        dec_val(s) >= 0,
    decreases s.len(),
{
    if s.len() > 0 {
        lemma_all_digits_take(s, s.len() - 1);
        assert(s.drop_last() =~= s.take(s.len() - 1));
        lemma_dec_val_nonneg(s.drop_last());
        assert(is_digit(s[s.len() - 1]));
    }
}

/// Extending a string of digits on the right never lowers its value.
proof fn lemma_dec_val_prefix(s: Seq<u8>, k: int)
    requires
        0 <= k <= s.len(),
        all_digits(s),
    ensures
        dec_val(s.take(k)) <= dec_val(s),
    decreases s.len() - k,
{
    if k == s.len() {
        assert(s.take(k) =~= s);
    } else {
        assert(s.take(k + 1).drop_last() =~= s.take(k));
        assert(s.take(k + 1).last() == s[k]);
        lemma_all_digits_take(s, k);
        lemma_dec_val_nonneg(s.take(k));
        assert(is_digit(s[k]));
        assert(dec_val(s.take(k + 1)) == dec_val(s.take(k)) * 10 + s[k] - 48);
        lemma_dec_val_prefix(s, k + 1);
    }
}

/// Classifies the first `len` bytes of `buf`: the bytes one receive
/// operation filled. The rest of `buf` is stale padding from earlier
/// receives and is never read.
pub fn classify_datagram(buf: &Vec<u8>, len: usize) -> (r: Inbound)
    requires
        len <= buf@.len(),
    ensures
        r == classify_spec(buf@.take(len as int)),
{
    let ghost data = buf@.take(len as int);
    if len < TAG_LEN {
        return Inbound::TooShort;
    }
    let t = tag();
    let mut i: usize = 0;
    while i < TAG_LEN
        invariant
            TAG_LEN <= len <= buf@.len(),
            i <= TAG_LEN,
            t@ == tag_bytes(),
            data == buf@.take(len as int),
            forall|j: int| 0 <= j < i ==> data[j] == tag_bytes()[j],
        decreases TAG_LEN - i,
    {
        if buf[i] != t[i] {
            proof {
                assert(data[i as int] == buf@[i as int]);
                assert(data.take(TAG_LEN as int)[i as int] != tag_bytes()[i as int]);
            }
            return Inbound::UnknownTag;
        }
        i += 1;
    }
    proof {
        assert(data.take(TAG_LEN as int) =~= tag_bytes());
    }
    let ghost rem = data.skip(TAG_LEN as int);
    let mut start: usize = TAG_LEN;
    if len > TAG_LEN && buf[TAG_LEN] == 43u8 {
        start = TAG_LEN + 1;
    }
    let ghost digits = data.skip(start as int);
    proof {
        if len > TAG_LEN && buf@[TAG_LEN as int] == 43 {
            assert(rem[0] == data[TAG_LEN as int]);
            assert(data[TAG_LEN as int] == buf@[TAG_LEN as int]);
            assert(rem.skip(1) =~= digits);
        } else {
            assert(rem =~= digits);
        }
        assert(counter_digits(rem) == digits);
    }
    if start >= len {
        proof {
            assert(digits.len() == 0);
        }
        return Inbound::BadCounter;
    }
    let mut acc: u64 = 0;
    let mut k: usize = start;
    while k < len
        invariant
            TAG_LEN <= start <= k <= len <= buf@.len(),
            start < len,
            data == buf@.take(len as int),
            rem == data.skip(TAG_LEN as int),
            digits == data.skip(start as int),
            counter_digits(rem) == digits,
            data.take(TAG_LEN as int) == tag_bytes(),
            all_digits(digits.take(k - start)),
            acc == dec_val(digits.take(k - start)),
        decreases len - k,
    {
        let b = buf[k];
        proof {
            assert(digits[k - start] == data[k as int]);
            assert(data[k as int] == buf@[k as int]);
        }
        if b < 48 || b > 57 {
            proof {
                assert(!is_digit(digits[k - start]));
            }
            return Inbound::BadCounter;
        }
        let d: u8 = b - 48;
        if acc > (u64::MAX - d as u64) / 10 {
            proof {
                let j = k - start + 1;
                assert(digits.take(j).drop_last() =~= digits.take(j - 1));
                assert(digits.take(j).last() == digits[j - 1]);
                assert(dec_val(digits.take(j)) == acc * 10 + b - 48);
                assert(acc * 10 + d > u64::MAX);
                if valid_counter(rem) {
                    lemma_dec_val_prefix(digits, j);
                    assert(false);
                }
            }
            return Inbound::BadCounter;
        }
        proof {
            assert(acc * 10 + d <= u64::MAX);
        }
        acc = acc * 10 + d as u64;
        proof {
            let j = k - start + 1;
            assert(digits.take(j).drop_last() =~= digits.take(j - 1));
            assert(digits.take(j).last() == digits[j - 1]);
            assert(is_digit(digits[j - 1]));
            assert forall|x: int| 0 <= x < j implies is_digit(digits.take(j)[x]) by {
                assert(digits.take(j)[x] == digits[x]);
                if x < j - 1 {
                    assert(is_digit(digits.take(j - 1)[x]));
                    assert(digits.take(j - 1)[x] == digits[x]);
                }
            }
            assert(all_digits(digits.take(j)));
        }
        k += 1;
    }
    proof {
        assert(digits.take(len - start) =~= digits);
        assert(valid_counter(rem));
    }
    Inbound::Probe { count: acc }
}

/// The encoder emits at least one byte, and only digits.
proof fn lemma_dec_bytes_digits(n: nat)
    ensures
        dec_bytes(n).len() >= 1,
        all_digits(dec_bytes(n)),
    decreases n,
{
    if n < 10 {
        assert(dec_bytes(n) =~= seq![(48 + n) as u8]);
    } else {
        lemma_dec_bytes_digits(n / 10);
        assert forall|i: int| 0 <= i < dec_bytes(n).len() implies is_digit(dec_bytes(n)[i]) by {
            if i < dec_bytes(n / 10).len() {
                assert(dec_bytes(n)[i] == dec_bytes(n / 10)[i]);
            } else {
                assert(dec_bytes(n)[i] == (48 + n % 10) as u8);
            }
        }
    }
}

/// Reading the encoder's digits back gives the encoded value.
proof fn lemma_dec_val_of_dec_bytes(n: nat)
    ensures
        dec_val(dec_bytes(n)) == n,
    decreases n,
{
    if n < 10 {
        reveal_with_fuel(dec_val, 2);
        assert(dec_bytes(n).drop_last() =~= Seq::<u8>::empty());
    } else {
        lemma_dec_val_of_dec_bytes(n / 10);
        assert(dec_bytes(n).drop_last() =~= dec_bytes(n / 10));
        assert(dec_bytes(n).last() == (48 + n % 10) as u8);
    }
}

/// Round-trip law: for every 64-bit counter `n`, the message that encodes
/// `n` classifies as a probe carrying exactly `n`.
pub proof fn lemma_probe_round_trip(n: u64)
    ensures
        classify_spec(probe_bytes(n as nat)) == (Inbound::Probe { count: n }),
{
    let data = probe_bytes(n as nat);
    lemma_dec_bytes_digits(n as nat);
    lemma_dec_val_of_dec_bytes(n as nat);
    assert(data.take(TAG_LEN as int) =~= tag_bytes());
    assert(data.skip(TAG_LEN as int) =~= dec_bytes(n as nat));
    assert(is_digit(dec_bytes(n as nat)[0]));
    assert(counter_digits(dec_bytes(n as nat)) == dec_bytes(n as nat));
    assert(valid_counter(data.skip(TAG_LEN as int)));
}

/// A datagram shorter than the tag is rejected outright, whatever its
/// bytes hold: no tag comparison and no counter parse enter into it.
pub proof fn lemma_short_datagram_rejected(data: Seq<u8>)
    requires
        data.len() < TAG_LEN,
    ensures
        classify_spec(data) == Inbound::TooShort,
{
}

/// A datagram of exactly the tag and nothing more fails counter parsing:
/// the empty remainder is not the decimal text of a number.
pub proof fn lemma_bare_tag_fails_parse()
    ensures
        classify_spec(tag_bytes()) == Inbound::BadCounter,
{
    assert(tag_bytes().len() == TAG_LEN);
    assert(tag_bytes().take(TAG_LEN as int) =~= tag_bytes());
    assert(tag_bytes().skip(TAG_LEN as int).len() == 0);
}

} // verus!
