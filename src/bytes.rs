use vstd::prelude::*;
use vstd::string::StringSliceAdditionalSpecFns;

verus! {

/// ASCII whitespace as `str::trim` and `split_whitespace` see it in the ASCII range.
pub open spec fn is_space(b: u8) -> bool {
    b == 32 || (9 <= b && b <= 13)
}

pub open spec fn lower_byte(b: u8) -> u8 {
    if 65 <= b && b <= 90 {
        (b + 32) as u8
    } else {
        b
    }
}

pub open spec fn lower(s: Seq<u8>) -> Seq<u8> {
    s.map_values(|b: u8| lower_byte(b))
}

/// First index at or after `i` that holds no whitespace (or the length).
pub open spec fn skip_space(s: Seq<u8>, i: int) -> int
    decreases s.len() - i,
{
    if 0 <= i < s.len() && is_space(s[i]) {
        skip_space(s, i + 1)
    } else {
        i
    }
}

/// Index just past the last non-whitespace byte of `s[lo..j]` (or `lo`).
pub open spec fn back_space(s: Seq<u8>, lo: int, j: int) -> int
    decreases j - lo,
{
    if lo < j && j <= s.len() && is_space(s[j - 1]) {
        back_space(s, lo, j - 1)
    } else {
        j
    }
}

/// `s` without leading and trailing whitespace.
pub open spec fn trim(s: Seq<u8>) -> Seq<u8> {
    let a = skip_space(s, 0);
    s.subrange(a, back_space(s, a, s.len() as int))
}

/// Copies `s[a..b]` into a new vector.
pub fn copy_range(s: &[u8], a: usize, b: usize) -> (r: Vec<u8>)
    requires
        a <= b <= s@.len(),
    ensures
        r@ == s@.subrange(a as int, b as int),
{
    let mut r: Vec<u8> = Vec::new();
    let mut i: usize = a;
    while i < b
        invariant
            a <= i <= b,
            b <= s@.len(),
            r@ == s@.subrange(a as int, i as int),
        decreases b - i,
    {
        r.push(s[i]);
        i += 1;
        proof {
            assert(r@ =~= s@.subrange(a as int, i as int));
        }
    }
    r
}

/// Appends the bytes of `s` to `out`.
pub fn push_bytes(out: &mut Vec<u8>, s: &[u8])
    ensures
        final(out)@ == old(out)@ + s@,
{
    let ghost start = out@;
    let mut i: usize = 0;
    while i < s.len()
        invariant
            i <= s@.len(),
            out@ == start + s@.subrange(0, i as int),
        decreases s@.len() - i,
    {
        out.push(s[i]);
        i += 1;
        proof {
            assert(out@ =~= start + s@.subrange(0, i as int));
        }
    }
    proof {
        assert(s@.subrange(0, s@.len() as int) =~= s@);
    }
}

/// Appends the UTF-8 bytes of `s` to `out`.
pub fn push_str(out: &mut Vec<u8>, s: &str)
    ensures
        final(out)@ == old(out)@ + s.spec_bytes(),
{
    push_bytes(out, s.as_bytes());
}

/// Returns `s` with leading and trailing whitespace removed.
pub fn trim_bytes(s: &[u8]) -> (r: Vec<u8>)
    ensures
        r@ == trim(s@),
{
    let mut a: usize = 0;
    while a < s.len() && (s[a] == 32 || (9 <= s[a] && s[a] <= 13))
        invariant
            a <= s@.len(),
            skip_space(s@, a as int) == skip_space(s@, 0),
        decreases s@.len() - a,
    {
        a += 1;
    }
    let mut b: usize = s.len();
    while a < b && (s[b - 1] == 32 || (9 <= s[b - 1] && s[b - 1] <= 13))
        invariant
            a <= b <= s@.len(),
            a == skip_space(s@, 0),
            back_space(s@, a as int, b as int) == back_space(s@, a as int, s@.len() as int),
        decreases b - a,
    {
        b -= 1;
    }
    copy_range(s, a, b)
}

/// Returns `s` with ASCII capitals turned to lower case.
pub fn lower_bytes(s: &[u8]) -> (r: Vec<u8>)
    ensures
        r@ == lower(s@),
{
    let mut r: Vec<u8> = Vec::new();
    let mut i: usize = 0;
    while i < s.len()
        invariant
            i <= s@.len(),
            r@ == lower(s@.subrange(0, i as int)),
        decreases s@.len() - i,
    {
        let b = s[i];
        let l: u8 = if 65 <= b && b <= 90 { b + 32 } else { b };
        r.push(l);
        i += 1;
        proof {
            assert(r@ =~= lower(s@.subrange(0, i as int)));
        }
    }
    proof {
        assert(s@.subrange(0, s@.len() as int) =~= s@);
    }
    r
}

/// Whether two byte strings are equal.
pub fn bytes_eq(a: &[u8], b: &[u8]) -> (r: bool)
    ensures
        r == (a@ == b@),
{
    if a.len() != b.len() {
        return false;
    }
    let mut i: usize = 0;
    while i < a.len()
        invariant
            i <= a@.len(),
            a@.len() == b@.len(),
            a@.subrange(0, i as int) == b@.subrange(0, i as int),
        decreases a@.len() - i,
    {
        if a[i] != b[i] {
            return false;
        }
        i += 1;
        proof {
            assert(a@.subrange(0, i as int) =~= a@.subrange(0, i - 1 as int).push(a@[i - 1]));
            assert(b@.subrange(0, i as int) =~= b@.subrange(0, i - 1 as int).push(b@[i - 1]));
        }
    }
    proof {
        assert(a@ =~= a@.subrange(0, a@.len() as int));
        assert(b@ =~= b@.subrange(0, b@.len() as int));
    }
    true
}

/// Whether `s` equals the bytes of the string `t`.
pub fn eq_str(s: &[u8], t: &str) -> (r: bool)
    ensures
        r == (s@ == t.spec_bytes()),
{
    bytes_eq(s, t.as_bytes())
}

/// Whether `s` ends with the bytes `t`.
pub fn ends_with(s: &[u8], t: &[u8]) -> (r: bool)
    ensures
        r == (t@.len() <= s@.len() && s@.subrange(s@.len() - t@.len(), s@.len() as int) == t@),
{
    if t.len() > s.len() {
        return false;
    }
    let off: usize = s.len() - t.len();
    let mut i: usize = 0;
    while i < t.len()
        invariant
            i <= t@.len(),
            off + t@.len() == s@.len(),
            s@.len() <= usize::MAX,
            s@.subrange(off as int, off + i) == t@.subrange(0, i as int),
        decreases t@.len() - i,
    {
        if s[off + i] != t[i] {
            proof {
                assert(s@.subrange(off as int, s@.len() as int)[i as int] == s@[off + i]);
            }
            return false;
        }
        i += 1;
        proof {
            assert(s@.subrange(off as int, off + i) =~= s@.subrange(off as int, off + i - 1).push(
                s@[off + i - 1],
            ));
            assert(t@.subrange(0, i as int) =~= t@.subrange(0, i - 1 as int).push(t@[i - 1]));
        }
    }
    proof {
        assert(t@ =~= t@.subrange(0, t@.len() as int));
    }
    true
}

/// Whether `s` ends with the bytes of the string `t`.
pub fn ends_with_str(s: &[u8], t: &str) -> (r: bool)
    ensures
        r == (t.spec_bytes().len() <= s@.len() && s@.subrange(
            s@.len() - t.spec_bytes().len(),
            s@.len() as int,
        ) == t.spec_bytes()),
{
    ends_with(s, t.as_bytes())
}

/// Decimal digits of `n`, most significant first, without leading zeros.
pub open spec fn dec(n: nat) -> Seq<u8>
    decreases n,
{
    if n < 10 {
        seq![(48 + n) as u8]
    } else {
        dec(n / 10).push((48 + n % 10) as u8)
    }
}

pub open spec fn is_digit(b: u8) -> bool {
    48 <= b && b <= 57
}

/// Value of a sequence of decimal digits.
pub open spec fn dec_value(s: Seq<u8>) -> nat
    decreases s.len(),
{
    if s.len() == 0 {
        0
    } else {
        dec_value(s.drop_last()) * 10 + (s.last() - 48) as nat
    }
}

/// Reading back the decimal digits of `n` gives `n`.
pub proof fn lemma_dec_round_trip(n: nat)
    ensures
        dec_value(dec(n)) == n,
        forall|i: int| 0 <= i < dec(n).len() ==> is_digit(#[trigger] dec(n)[i]),
        dec(n).len() > 0,
    decreases n,
{
    if n >= 10 {
        lemma_dec_round_trip(n / 10);
        assert(dec(n).drop_last() =~= dec(n / 10));
        vstd::arithmetic::div_mod::lemma_fundamental_div_mod(n as int, 10);
        let d = (48 + n % 10) as u8;
        assert(dec(n).last() == d);
        assert((d - 48) as nat == n % 10);
        assert(dec_value(dec(n)) == dec_value(dec(n / 10)) * 10 + (d - 48) as nat);
        assert(n == (n / 10) * 10 + n % 10) by (nonlinear_arith);
    } else {
        assert(dec(n).last() == (48 + n) as u8);
        assert(dec(n).drop_last() =~= Seq::<u8>::empty());
        assert(dec_value(Seq::<u8>::empty()) == 0);
    }
}

/// Appends the decimal digits of `n` to `out`.
pub fn push_decimal(out: &mut Vec<u8>, n: u64)
    ensures
        final(out)@ == old(out)@ + dec(n as nat),
    decreases n,
{
    if n >= 10 {
        push_decimal(out, n / 10);
    }
    let d: u8 = (n % 10) as u8;
    out.push(48 + d);
    proof {
        if n >= 10 {
            assert(dec(n as nat) == dec((n / 10) as nat).push((48 + n % 10) as u8));
        }
    }
}

} // verus!
