//! Fixed-width lowercase hexadecimal digits, the text form used in tokens.

use vstd::prelude::*;
use vstd::arithmetic::div_mod::lemma_fundamental_div_mod;

verus! {

/// `16^n`.
pub open spec fn pow16(n: nat) -> nat
    decreases n,
{
    if n == 0 {
        1
    } else {
        16 * pow16((n - 1) as nat)
    }
}

/// The ASCII character of a digit below sixteen.
pub open spec fn hex_char(d: nat) -> u8 {
    if d < 10 {
        (48 + d) as u8
    } else {
        (87 + d) as u8
    }
}

pub open spec fn is_hex_char(c: u8) -> bool {
    (48 <= c <= 57) || (97 <= c <= 102)
}

/// The value of one digit character.
pub open spec fn digit_value(c: u8) -> nat {
    if c <= 57 {
        (c - 48) as nat
    } else {
        (c - 87) as nat
    }
}

pub open spec fn all_hex(s: Seq<u8>) -> bool {
    forall|i: int| 0 <= i < s.len() ==> is_hex_char(#[trigger] s[i])
}

/// The last `n` hexadecimal digits of `v`, most significant first.
pub open spec fn hex_digits(v: nat, n: nat) -> Seq<u8>
    decreases n,
{
    if n == 0 {
        Seq::empty()
    } else {
        hex_digits(v / 16, (n - 1) as nat).push(hex_char(v % 16))
    }
}

/// The number that a run of digits spells, most significant first.
pub open spec fn hex_value(s: Seq<u8>) -> nat
    decreases s.len(),
{
    if s.len() == 0 {
        0
    } else {
        hex_value(s.drop_last()) * 16 + digit_value(s.last())
    }
}

/// Two digits for each byte.
pub open spec fn bytes_hex(s: Seq<u8>) -> Seq<u8>
    decreases s.len(),
{
    if s.len() == 0 {
        Seq::empty()
    } else {
        bytes_hex(s.drop_last()) + hex_digits(s.last() as nat, 2)
    }
}

pub proof fn lemma_pow16_monotonic(a: nat, b: nat)
    requires
        a <= b,
    ensures
        pow16(a) <= pow16(b),
    decreases b,
{
    if a < b {
        lemma_pow16_monotonic(a, (b - 1) as nat);
    }
}

pub proof fn lemma_pow16_values()
    ensures
        pow16(8) == 0x1_0000_0000,
        pow16(16) == 0x1_0000_0000_0000_0000,
{
    reveal_with_fuel(pow16, 17);
}

/// `hex_digits` writes `n` digits, and reading them back gives `v` when it fits.
pub proof fn lemma_hex_round_trip(v: nat, n: nat)
    ensures
        hex_digits(v, n).len() == n,
        all_hex(hex_digits(v, n)),
        v < pow16(n) ==> hex_value(hex_digits(v, n)) == v,
    decreases n,
{
    if n > 0 {
        lemma_hex_round_trip(v / 16, (n - 1) as nat);
        lemma_fundamental_div_mod(v as int, 16);
        let s = hex_digits(v, n);
        assert(s.drop_last() =~= hex_digits(v / 16, (n - 1) as nat));
        if v < pow16(n) {
            assert(v / 16 < pow16((n - 1) as nat));
        }
    }
}

/// A run of digits is the `hex_digits` of its own value: the text form is canonical.
pub proof fn lemma_hex_canonical(s: Seq<u8>)
    requires
        all_hex(s),
    ensures
        hex_value(s) < pow16(s.len()),
        hex_digits(hex_value(s), s.len()) =~= s,
    decreases s.len(),
{
    if s.len() > 0 {
        let p = s.drop_last();
        assert(all_hex(p)) by {
            assert forall|i: int| 0 <= i < p.len() implies is_hex_char(#[trigger] p[i]) by {
                assert(p[i] == s[i]);
            }
        }
        lemma_hex_canonical(p);
        let d = digit_value(s.last());
        assert(is_hex_char(s[s.len() - 1]));
        assert(d < 16);
        let v = hex_value(s);
        assert(v == hex_value(p) * 16 + d);
        assert(v / 16 == hex_value(p) && v % 16 == d) by {
            lemma_fundamental_div_mod(v as int, 16);
        }
        assert(hex_char(d) == s.last());
        assert(s =~= p.push(s.last()));
    }
}

pub proof fn lemma_bytes_hex(s: Seq<u8>)
    ensures
        bytes_hex(s).len() == 2 * s.len(),
        all_hex(bytes_hex(s)),
    decreases s.len(),
{
    if s.len() > 0 {
        lemma_bytes_hex(s.drop_last());
        lemma_hex_round_trip(s.last() as nat, 2);
        let a = bytes_hex(s.drop_last());
        let b = hex_digits(s.last() as nat, 2);
        assert forall|i: int| 0 <= i < (a + b).len() implies is_hex_char(#[trigger] (a + b)[i]) by {
            if i < a.len() {
                assert((a + b)[i] == a[i]);
            } else {
                assert((a + b)[i] == b[i - a.len()]);
            }
        }
    }
}

fn hex_char_exec(d: u64) -> (c: u8)
    requires
        d < 16,
    ensures
        c == hex_char(d as nat),
{
    if d < 10 {
        48 + d as u8
    } else {
        87 + d as u8
    }
}

/// Appends the last `n` hexadecimal digits of `v`.
pub fn push_hex(out: &mut Vec<u8>, v: u64, n: usize)
    requires
        n <= 16,
    ensures
        final(out)@ == old(out)@ + hex_digits(v as nat, n as nat),
    decreases n,
{
    if n > 0 {
        push_hex(out, v / 16, n - 1);
        let c = hex_char_exec(v % 16);
        let ghost mid = out@;
        out.push(c);
        assert(hex_digits(v as nat, n as nat) =~= hex_digits((v / 16) as nat, (n - 1) as nat).push(c));
        assert(out@ =~= old(out)@ + hex_digits(v as nat, n as nat));
    } else {
        assert(old(out)@ + hex_digits(v as nat, 0) =~= old(out)@);
    }
}

/// Appends two digits for each byte of `b`.
pub fn push_bytes_hex(out: &mut Vec<u8>, b: &[u8])
    ensures
        final(out)@ == old(out)@ + bytes_hex(b@),
{
    let mut i: usize = 0;
    while i < b.len()
        invariant
            i <= b@.len(),
            out@ == old(out)@ + bytes_hex(b@.take(i as int)),
        decreases b@.len() - i,
    {
        let ghost before = out@;
        push_hex(out, b[i] as u64, 2);
        proof {
            let t = b@.take(i as int + 1);
            assert(t.drop_last() =~= b@.take(i as int));
            assert(t.last() == b@[i as int]);
            assert(out@ =~= old(out)@ + bytes_hex(t));
        }
        i = i + 1;
    }
    assert(b@.take(b@.len() as int) =~= b@);
}

/// Reads the `n` digits of `b` that start at `start`; `None` where one is not a
/// lowercase hexadecimal digit.
pub fn parse_hex(b: &[u8], start: usize, n: usize) -> (r: Option<u64>)
    requires
        n <= 16,
        start + n <= b@.len(),
    ensures
        r == (if all_hex(b@.subrange(start as int, start + n)) {
            Some(hex_value(b@.subrange(start as int, start + n)) as u64)
        } else {
            None::<u64>
        }),
{
    let ghost s = b@.subrange(start as int, start + n);
    let len = b.len();
    let mut acc: u64 = 0;
    let mut i: usize = 0;
    while i < n
        invariant
            len == b@.len(),
            n <= 16,
            start + n <= b@.len(),
            s == b@.subrange(start as int, start + n),
            i <= n,
            all_hex(s.take(i as int)),
            acc as nat == hex_value(s.take(i as int)),
            acc < pow16(i as nat),
        decreases n - i,
    {
        let c = b[start + i];
        assert(c == s[i as int]);
        if !((48 <= c && c <= 57) || (97 <= c && c <= 102)) {
            assert(!all_hex(s));
            return None;
        }
        let d: u64 = if c <= 57 { (c - 48) as u64 } else { (c - 87) as u64 };
        proof {
            lemma_pow16_monotonic(i as nat + 1, 16);
            lemma_pow16_values();
            let t = s.take(i as int + 1);
            assert(t.drop_last() =~= s.take(i as int));
            assert(t.last() == c);
            assert(acc * 16 + d < pow16(i as nat + 1));
            assert forall|j: int| 0 <= j < t.len() implies is_hex_char(#[trigger] t[j]) by {
                if j < i {
                    assert(t[j] == s.take(i as int)[j]);
                }
            }
        }
        acc = acc * 16 + d;
        i = i + 1;
    }
    assert(s.take(n as int) =~= s);
    Some(acc)
}

} // verus!
