//! Exact decimal prices in fixed point, with verified parsing from and
//! formatting to ASCII decimal literals. Binary floating point is avoided on
//! purpose: threshold comparisons at price boundaries must not drift.

use vstd::prelude::*;
use vstd::arithmetic::div_mod::lemma_fundamental_div_mod;

verus! {

/// Number of `units` in one whole quote unit: prices carry eight decimals.
pub const SCALE: u64 = 100_000_000;

/// A price or quantity in fixed point: `units` counts hundred-millionths
/// (1e-8) of one quote unit.
#[derive(Clone, Copy, Debug, PartialEq, Eq, Structural)]
pub struct Price {
    pub units: u64,
}

pub open spec fn is_ascii_digit(b: u8) -> bool {
    48 <= b && b <= 57
}

pub open spec fn all_digits(s: Seq<u8>) -> bool {
    forall|i: int| 0 <= i < s.len() ==> is_ascii_digit(#[trigger] s[i])
}

/// 10 to the `n`th power.
pub open spec fn pow10(n: nat) -> int
    decreases n,
{
    if n == 0 {
        1
    } else {
        10 * pow10((n - 1) as nat)
    }
}

/// Value of a big-endian string of ASCII digits.
pub open spec fn dec_val(s: Seq<u8>) -> int
    decreases s.len(),
{
    if s.len() == 0 {
        0
    } else {
        dec_val(s.drop_last()) * 10 + (s.last() - 48)
    }
}

/// The canonical decimal representation of `n`: no leading zeros, and `0`
/// itself prints as a single digit.
pub open spec fn dec_repr(n: nat) -> Seq<u8>
    decreases n,
{
    if n < 10 {
        seq![(48 + n) as u8]
    } else {
        dec_repr((n / 10) as nat) + seq![(48 + n % 10) as u8]
    }
}

pub proof fn lemma_pow10_pos(n: nat)
    ensures
        pow10(n) >= 1,
    decreases n,
{
    if n > 0 {
        lemma_pow10_pos((n - 1) as nat);
    }
}

pub proof fn lemma_pow10_mono(a: nat, b: nat)
    requires
        a <= b,
    ensures
        pow10(a) <= pow10(b),
    decreases b,
{
    if a < b {
        lemma_pow10_mono(a, (b - 1) as nat);
        lemma_pow10_pos((b - 1) as nat);
    }
}

pub proof fn lemma_pow10_adds(a: nat, b: nat)
    ensures
        pow10((a + b) as nat) == pow10(a) * pow10(b),
    decreases a,
{
    if a == 0 {
        assert(pow10(b) == 1 * pow10(b));
    } else {
        lemma_pow10_adds((a - 1) as nat, b);
        assert(10 * (pow10((a - 1) as nat) * pow10(b)) == (10 * pow10((a - 1) as nat))
            * pow10(b)) by (nonlinear_arith);
    }
}

pub proof fn lemma_dec_val_bounds(s: Seq<u8>)
    requires
        all_digits(s),
    ensures
        0 <= dec_val(s) < pow10(s.len()),
    decreases s.len(),
{
    if s.len() > 0 {
        assert(forall|i: int| 0 <= i < s.len() - 1 ==> is_ascii_digit(#[trigger] s.drop_last()[i]));
        lemma_dec_val_bounds(s.drop_last());
        assert(is_ascii_digit(s.last()));
    }
}

pub proof fn lemma_dec_val_lower(s: Seq<u8>)
    requires
        all_digits(s),
        s.len() > 0,
        s[0] != 48,
    ensures
        dec_val(s) >= pow10((s.len() - 1) as nat),
    decreases s.len(),
{
    if s.len() > 1 {
        assert(forall|i: int| 0 <= i < s.len() - 1 ==> is_ascii_digit(#[trigger] s.drop_last()[i]));
        lemma_dec_val_lower(s.drop_last());
        assert(is_ascii_digit(s.last()));
    } else {
        assert(is_ascii_digit(s[0]));
        assert(s.last() == s[0]);
        assert(s.drop_last().len() == 0);
        assert(dec_val(s) == dec_val(s.drop_last()) * 10 + (s.last() - 48));
        assert(dec_val(s.drop_last()) == 0);
    }
}

pub proof fn lemma_dec_repr(n: nat)
    ensures
        all_digits(dec_repr(n)),
        dec_repr(n).len() >= 1,
        dec_val(dec_repr(n)) == n,
        n > 0 ==> dec_repr(n)[0] != 48,
    decreases n,
{
    if n < 10 {
        let s = dec_repr(n);
        assert(s.len() == 1);
        assert((48 + n) as u8 == 48 + n);
        assert(s.last() == (48 + n) as u8);
        assert(s.drop_last().len() == 0);
        assert(dec_val(s.drop_last()) == 0);
        assert(dec_val(s) == dec_val(s.drop_last()) * 10 + (s.last() - 48));
    } else {
        let q = (n / 10) as nat;
        let r = n % 10;
        lemma_dec_repr(q);
        lemma_fundamental_div_mod(n as int, 10);
        let s = dec_repr(n);
        assert(s.drop_last() =~= dec_repr(q));
        assert(s.last() == (48 + r) as u8);
        assert(dec_val(s) == dec_val(dec_repr(q)) * 10 + ((48 + r) - 48));
        assert(q >= 1);
        assert(s[0] == dec_repr(q)[0]);
    }
}

/// `dec_repr(n)` never takes more digits than any power of ten above `n`.
pub proof fn lemma_dec_repr_len(n: nat, k: nat)
    requires
        n < pow10(k),
        k >= 1,
    ensures
        dec_repr(n).len() <= k,
{
    lemma_dec_repr(n);
    let s = dec_repr(n);
    if s.len() > k {
        if n == 0 {
            assert(s.len() == 1);
        } else {
            lemma_dec_val_lower(s);
            lemma_pow10_mono(k, (s.len() - 1) as nat);
        }
    }
}

/// Index of the first `.` in `s`, or `s.len()` if there is none.
pub open spec fn dot_index(s: Seq<u8>) -> int
    decreases s.len(),
{
    if s.len() == 0 {
        0
    } else if s[0] == 46 {
        0
    } else {
        1 + dot_index(s.skip(1))
    }
}

pub proof fn lemma_dot_index(s: Seq<u8>)
    ensures
        0 <= dot_index(s) <= s.len(),
        forall|j: int| 0 <= j < dot_index(s) ==> s[j] != 46,
        dot_index(s) < s.len() ==> s[dot_index(s)] == 46,
    decreases s.len(),
{
    if s.len() > 0 && s[0] != 46 {
        lemma_dot_index(s.skip(1));
        assert(forall|j: int| 1 <= j < dot_index(s) ==> s[j] == s.skip(1)[j - 1] && s.skip(1)[j
            - 1] != 46);
        if dot_index(s) < s.len() {
            assert(s[dot_index(s)] == s.skip(1)[dot_index(s.skip(1))]);
        }
    }
}

pub proof fn lemma_dot_index_unique(s: Seq<u8>, i: int)
    requires
        0 <= i <= s.len(),
        forall|j: int| 0 <= j < i ==> s[j] != 46,
        i < s.len() ==> s[i] == 46,
    ensures
        dot_index(s) == i,
{
    lemma_dot_index(s);
    if dot_index(s) < i {
        assert(s[dot_index(s)] == 46);
        assert(false);
    }
    if dot_index(s) > i {
        assert(s[i] != 46);
        assert(false);
    }
}

/// A decimal price literal: one to eleven integer digits, then optionally a
/// dot and one to eight fractional digits. Every such literal's value fits a
/// `u64` of `units`.
pub open spec fn is_price_lit(s: Seq<u8>) -> bool {
    let d = dot_index(s);
    if d == s.len() {
        1 <= s.len() <= 11 && all_digits(s)
    } else {
        1 <= d <= 11 && all_digits(s.take(d)) && 1 <= s.len() - d - 1 <= 8 && all_digits(
            s.skip(d + 1),
        )
    }
}

/// The exact value, in `units` of 1e-8, that a price literal denotes.
pub open spec fn price_units(s: Seq<u8>) -> int {
    let d = dot_index(s);
    if d == s.len() {
        dec_val(s) * (SCALE as int)
    } else {
        dec_val(s.take(d)) * (SCALE as int) + dec_val(s.skip(d + 1)) * pow10(
            (8 - (s.len() - d - 1)) as nat,
        )
    }
}

/// Appends all of `bs` to `out`.
pub fn push_bytes(out: &mut Vec<u8>, bs: &Vec<u8>)
    ensures
        final(out)@ == old(out)@ + bs@,
{
    let mut j: usize = 0;
    while j < bs.len()
        invariant
            j <= bs@.len(),
            out@ == old(out)@ + bs@.take(j as int),
        decreases bs@.len() - j,
    {
        out.push(bs[j]);
        proof {
            assert(bs@.take(j + 1 as int).drop_last() =~= bs@.take(j as int));
            assert(out@ =~= old(out)@ + bs@.take(j + 1 as int));
        }
        j = j + 1;
    }
    proof {
        assert(bs@.take(bs@.len() as int) =~= bs@);
    }
}

fn pow10_u64(n: usize) -> (r: u64)
    requires
        n <= 11,
    ensures
        r == pow10(n as nat),
{
    let mut r: u64 = 1;
    let mut i: usize = 0;
    while i < n
        invariant
            i <= n <= 11,
            r == pow10(i as nat),
        decreases n - i,
    {
        proof {
            reveal_with_fuel(pow10, 13);
            lemma_pow10_mono((i + 1) as nat, 11);
        }
        r = r * 10;
        i = i + 1;
    }
    r
}

fn find_dot(s: &Vec<u8>) -> (r: usize)
    ensures
        r == dot_index(s@),
{
    let n = s.len();
    let mut d: usize = 0;
    while d < n && s[d] != 46
        invariant
            d <= n,
            n == s@.len(),
            forall|j: int| 0 <= j < d ==> s@[j] != 46,
        decreases n - d,
    {
        d = d + 1;
    }
    proof {
        lemma_dot_index_unique(s@, d as int);
    }
    d
}

/// Reads the digit run `s[from..to]`; `None` as soon as a non-digit appears.
fn parse_digits(s: &Vec<u8>, from: usize, to: usize) -> (r: Option<u64>)
    requires
        from <= to <= s@.len(),
        to - from <= 11,
    ensures
        r is Some <==> all_digits(s@.subrange(from as int, to as int)),
        r matches Some(v) ==> v == dec_val(s@.subrange(from as int, to as int)),
{
    let mut acc: u64 = 0;
    let mut i: usize = from;
    while i < to
        invariant
            from <= i <= to <= s@.len(),
            to - from <= 11,
            all_digits(s@.subrange(from as int, i as int)),
            acc == dec_val(s@.subrange(from as int, i as int)),
            acc < pow10((i - from) as nat),
        decreases to - i,
    {
        let b = s[i];
        if b < 48 || b > 57 {
            proof {
                assert(!is_ascii_digit(s@.subrange(from as int, to as int)[i - from]));
            }
            return None;
        }
        proof {
            let pre = s@.subrange(from as int, i as int);
            let cur = s@.subrange(from as int, i + 1 as int);
            assert(cur.drop_last() =~= pre);
            assert(cur.last() == s@[i as int]);
            reveal_with_fuel(pow10, 13);
            lemma_pow10_mono((i - from + 1) as nat, 11);
        }
        acc = acc * 10 + ((b - 48) as u64);
        i = i + 1;
    }
    proof {
        assert(s@.subrange(from as int, i as int) =~= s@.subrange(from as int, to as int));
    }
    Some(acc)
}

/// Parses a decimal price literal; `None` exactly on inputs that are not
/// price literals.
pub fn parse_price(s: &Vec<u8>) -> (r: Option<Price>)
    ensures
        r is Some <==> is_price_lit(s@),
        r matches Some(p) ==> p.units == price_units(s@),
{
    let n = s.len();
    let d = find_dot(s);
    proof {
        lemma_dot_index(s@);
        reveal_with_fuel(pow10, 13);
    }
    if d == n {
        if n < 1 || n > 11 {
            return None;
        }
        proof {
            assert(s@.subrange(0, n as int) =~= s@);
        }
        match parse_digits(s, 0, n) {
            None => None,
            Some(v) => {
                proof {
                    lemma_dec_val_bounds(s@);
                    lemma_pow10_mono(s@.len() as nat, 11);
                    assert(v * (SCALE as int) <= (pow10(11) - 1) * (SCALE as int));
                }
                Some(Price { units: v * SCALE })
            },
        }
    } else {
        let flen = n - d - 1;
        if d < 1 || d > 11 || flen < 1 || flen > 8 {
            return None;
        }
        proof {
            assert(s@.subrange(0, d as int) =~= s@.take(d as int));
            assert(s@.subrange(d + 1 as int, n as int) =~= s@.skip(d + 1));
        }
        match parse_digits(s, 0, d) {
            None => None,
            Some(ip) => match parse_digits(s, d + 1, n) {
                None => None,
                Some(fp) => {
                    let mult = pow10_u64(8 - flen);
                    proof {
                        lemma_dec_val_bounds(s@.take(d as int));
                        lemma_dec_val_bounds(s@.skip(d + 1));
                        lemma_pow10_mono(d as nat, 11);
                        lemma_pow10_adds(flen as nat, (8 - flen) as nat);
                        lemma_pow10_pos((8 - flen) as nat);
                        assert(fp * mult < pow10(8)) by (nonlinear_arith)
                            requires
                                0 <= fp < pow10(flen as nat),
                                mult == pow10((8 - flen) as nat),
                                mult >= 1,
                                pow10(flen as nat) * pow10((8 - flen) as nat) == pow10(8),
                        ;
                        assert(ip * (SCALE as int) <= (pow10(11) - 1) * (SCALE as int));
                    }
                    Some(Price { units: ip * SCALE + fp * mult })
                },
            },
        }
    }
}

/// Prints `n` in decimal, the canonical way.
pub fn fmt_u64(n: u64) -> (r: Vec<u8>)
    ensures
        r@ == dec_repr(n as nat),
    decreases n,
{
    if n < 10 {
        let mut v: Vec<u8> = Vec::new();
        v.push(48 + (n as u8));
        proof {
            assert(v@ =~= dec_repr(n as nat));
        }
        v
    } else {
        let mut v = fmt_u64(n / 10);
        v.push(48 + ((n % 10) as u8));
        proof {
            assert(v@ =~= dec_repr((n / 10) as nat) + seq![(48 + (n as nat) % 10) as u8]);
        }
        v
    }
}

/// Zero-padded `k`-digit decimal representation of `f mod 10^k`.
pub open spec fn pad_repr(f: nat, k: nat) -> Seq<u8>
    decreases k,
{
    if k == 0 {
        Seq::empty()
    } else {
        pad_repr((f / 10) as nat, (k - 1) as nat) + seq![(48 + f % 10) as u8]
    }
}

/// Drops trailing zero digits, always keeping at least one digit.
pub open spec fn trim_zeros(s: Seq<u8>) -> Seq<u8>
    decreases s.len(),
{
    if s.len() > 1 && s.last() == 48 {
        trim_zeros(s.drop_last())
    } else {
        s
    }
}

/// The canonical literal for a fixed-point value: the integer part, then a
/// fractional part only if it is nonzero, with trailing zeros dropped.
pub open spec fn price_repr(u: nat) -> Seq<u8> {
    if u % (SCALE as nat) == 0 {
        dec_repr((u / (SCALE as nat)) as nat)
    } else {
        dec_repr((u / (SCALE as nat)) as nat) + seq![46u8] + trim_zeros(
            pad_repr((u % (SCALE as nat)) as nat, 8),
        )
    }
}

proof fn lemma_pad_repr(f: nat, k: nat)
    requires
        f < pow10(k),
    ensures
        all_digits(pad_repr(f, k)),
        pad_repr(f, k).len() == k,
        dec_val(pad_repr(f, k)) == f,
    decreases k,
{
    if k == 0 {
        assert(pad_repr(f, k).len() == 0);
    } else {
        lemma_pow10_pos((k - 1) as nat);
        assert(f / 10 < pow10((k - 1) as nat)) by (nonlinear_arith)
            requires
                f < 10 * pow10((k - 1) as nat),
                pow10((k - 1) as nat) >= 1,
        ;
        lemma_pad_repr((f / 10) as nat, (k - 1) as nat);
        lemma_fundamental_div_mod(f as int, 10);
        let s = pad_repr(f, k);
        assert(s.drop_last() =~= pad_repr((f / 10) as nat, (k - 1) as nat));
        assert(s.last() == (48 + f % 10) as u8);
        assert(dec_val(s) == dec_val(s.drop_last()) * 10 + (s.last() - 48));
    }
}

proof fn lemma_trim_zeros(s: Seq<u8>)
    requires
        all_digits(s),
        s.len() >= 1,
    ensures
        1 <= trim_zeros(s).len() <= s.len(),
        all_digits(trim_zeros(s)),
        dec_val(trim_zeros(s)) * pow10((s.len() - trim_zeros(s).len()) as nat) == dec_val(s),
    decreases s.len(),
{
    let t = trim_zeros(s);
    if s.len() > 1 && s.last() == 48 {
        assert(forall|i: int| 0 <= i < s.len() - 1 ==> is_ascii_digit(#[trigger] s.drop_last()[i]));
        lemma_trim_zeros(s.drop_last());
        let k = s.drop_last().len() - t.len();
        assert(dec_val(s) == dec_val(s.drop_last()) * 10 + (s.last() - 48));
        assert(pow10((k + 1) as nat) == 10 * pow10(k as nat));
        assert(dec_val(t) * pow10((k + 1) as nat) == (dec_val(t) * pow10(k as nat)) * 10)
            by (nonlinear_arith)
            requires
                pow10((k + 1) as nat) == 10 * pow10(k as nat),
        ;
    } else {
        assert(pow10((s.len() - t.len()) as nat) == 1);
    }
}

/// Every byte of a canonical price literal is a digit or the dot.
pub proof fn lemma_price_repr_bytes(u: nat)
    ensures
        forall|i: int|
            0 <= i < price_repr(u).len() ==> is_ascii_digit(#[trigger] price_repr(u)[i])
                || price_repr(u)[i] == 46,
{
    let scale_n = SCALE as nat;
    let q = (u / scale_n) as nat;
    let f = (u % scale_n) as nat;
    lemma_dec_repr(q);
    let a = dec_repr(q);
    if f == 0 {
        assert(price_repr(u) == a);
    } else {
        reveal_with_fuel(pow10, 10);
        assert(f < pow10(8));
        lemma_pad_repr(f, 8);
        lemma_trim_zeros(pad_repr(f, 8));
        let b = trim_zeros(pad_repr(f, 8));
        let s = price_repr(u);
        assert(s == a + seq![46u8] + b);
        assert forall|i: int| 0 <= i < s.len() implies is_ascii_digit(#[trigger] s[i]) || s[i]
            == 46 by {
            if i < a.len() {
                assert(s[i] == a[i]);
            } else if i == a.len() {
                assert(s[i] == 46);
            } else {
                assert(s[i] == b[i - a.len() - 1]);
            }
        }
    }
}

/// Round trip: the canonical literal of any fixed-point amount below 10^19
/// is itself a price literal, and it denotes exactly that amount — so
/// formatting a price and parsing the text back returns the same value.
pub proof fn lemma_price_repr_round_trip(u: nat)
    requires
        u < pow10(19),
    ensures
        is_price_lit(price_repr(u)),
        price_units(price_repr(u)) == u,
{
    let scale_n = SCALE as nat;
    let q = (u / scale_n) as nat;
    let f = (u % scale_n) as nat;
    lemma_fundamental_div_mod(u as int, SCALE as int);
    lemma_pow10_adds(11, 8);
    reveal_with_fuel(pow10, 10);
    assert(pow10(8) == SCALE as int);
    assert(q < pow10(11)) by (nonlinear_arith)
        requires
            u < pow10(11) * pow10(8),
            pow10(8) == SCALE as int,
            q == u / (SCALE as nat),
            SCALE > 0,
    ;
    lemma_dec_repr(q);
    lemma_dec_repr_len(q, 11);
    let a = dec_repr(q);
    if f == 0 {
        let s = price_repr(u);
        assert(s == a);
        assert forall|j: int| 0 <= j < s.len() implies s[j] != 46 by {
            assert(is_ascii_digit(s[j]));
        }
        lemma_dot_index_unique(s, s.len() as int);
        assert(dec_val(s) * (SCALE as int) == u);
    } else {
        assert(f < pow10(8));
        lemma_pad_repr(f, 8);
        lemma_trim_zeros(pad_repr(f, 8));
        let b = trim_zeros(pad_repr(f, 8));
        let s = price_repr(u);
        assert(s == a + seq![46u8] + b);
        assert(s.len() == a.len() + 1 + b.len());
        assert forall|j: int| 0 <= j < a.len() implies s[j] != 46 by {
            assert(s[j] == a[j]);
            assert(is_ascii_digit(a[j]));
        }
        assert(s[a.len() as int] == 46);
        lemma_dot_index_unique(s, a.len() as int);
        let d = a.len() as int;
        assert(s.take(d) =~= a);
        assert(s.skip(d + 1) =~= b);
        assert(1 <= b.len() <= 8);
        assert(dec_val(b) * pow10((8 - b.len()) as nat) == f);
        assert(price_units(s) == dec_val(a) * (SCALE as int) + dec_val(b) * pow10(
            (8 - b.len()) as nat,
        ));
        assert(dec_val(a) * (SCALE as int) == q * (SCALE as int));
    }
}

fn pad_digits(f: u64, k: usize) -> (r: Vec<u8>)
    ensures
        r@ == pad_repr(f as nat, k as nat),
    decreases k,
{
    if k == 0 {
        let v: Vec<u8> = Vec::new();
        proof {
            assert(v@ =~= pad_repr(f as nat, 0));
        }
        v
    } else {
        let mut v = pad_digits(f / 10, k - 1);
        v.push(48 + ((f % 10) as u8));
        proof {
            assert(v@ =~= pad_repr((f as nat / 10) as nat, (k - 1) as nat) + seq![(48 + (f as nat)
                % 10) as u8]);
        }
        v
    }
}

/// Prints a fixed-point price as its canonical decimal literal.
pub fn fmt_price(p: Price) -> (r: Vec<u8>)
    ensures
        r@ == price_repr(p.units as nat),
{
    let q = p.units / SCALE;
    let f = p.units % SCALE;
    let mut out = fmt_u64(q);
    if f == 0 {
        return out;
    }
    out.push(46);
    let mut frac = pad_digits(f, 8);
    while frac.len() > 1 && frac[frac.len() - 1] == 48
        invariant
            frac@.len() >= 1,
            trim_zeros(frac@) == trim_zeros(pad_repr((p.units as nat) % (SCALE as nat), 8)),
        decreases frac@.len(),
    {
        let ghost before = frac@;
        frac.pop();
        proof {
            assert(frac@ =~= before.drop_last());
            assert(trim_zeros(before) == trim_zeros(frac@));
        }
    }
    proof {
        assert(trim_zeros(frac@) == frac@);
    }
    push_bytes(&mut out, &frac);
    proof {
        assert(out@ =~= price_repr(p.units as nat));
    }
    out
}

} // verus!
