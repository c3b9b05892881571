//! Conversions of the numeric fields of a trace line.
use vstd::prelude::*;

verus! {

/// The value of a decimal digit character.
pub open spec fn dec_digit(c: char) -> int {
    c as int - '0' as int
}

pub open spec fn is_dec_digit(c: char) -> bool {
    '0' <= c && c <= '9'
}

pub open spec fn is_hex_digit(c: char) -> bool {
    is_dec_digit(c) || ('a' <= c && c <= 'f') || ('A' <= c && c <= 'F')
}

/// The value of a hexadecimal digit character.
pub open spec fn hex_digit(c: char) -> int {
    if is_dec_digit(c) {
        dec_digit(c)
    } else if 'a' <= c && c <= 'f' {
        c as int - 'a' as int + 10
    } else {
        c as int - 'A' as int + 10
    }
}

pub open spec fn all_dec(s: Seq<char>) -> bool {
    forall|i: int| 0 <= i < s.len() ==> is_dec_digit(#[trigger] s[i])
}

pub open spec fn all_hex(s: Seq<char>) -> bool {
    forall|i: int| 0 <= i < s.len() ==> is_hex_digit(#[trigger] s[i])
}

/// The number that a run of decimal digits denotes, most significant first.
pub open spec fn dec_value(s: Seq<char>) -> int
    decreases s.len(),
{
    if s.len() == 0 {
        0
    } else {
        dec_value(s.drop_last()) * 10 + dec_digit(s.last())
    }
}

/// The number that a run of hexadecimal digits denotes, most significant first.
pub open spec fn hex_value(s: Seq<char>) -> int
    decreases s.len(),
{
    if s.len() == 0 {
        0
    } else {
        hex_value(s.drop_last()) * 16 + hex_digit(s.last())
    }
}

pub open spec fn pow10(k: nat) -> int
    decreases k,
{
    if k == 0 {
        1
    } else {
        10 * pow10((k - 1) as nat)
    }
}

/// What a non-empty run of hexadecimal digits reads as a `u64`; `None` on any
/// other text and on a value past `u64::MAX`.
pub open spec fn hex_u64(s: Seq<char>) -> Option<u64> {
    if s.len() > 0 && all_hex(s) && hex_value(s) <= u64::MAX {
        Some(hex_value(s) as u64)
    } else {
        None
    }
}

/// What a non-empty run of decimal digits reads as a `u64`; `None` on any
/// other text and on a value past `u64::MAX`.
pub open spec fn dec_u64(s: Seq<char>) -> Option<u64> {
    if s.len() > 0 && all_dec(s) && dec_value(s) <= u64::MAX {
        Some(dec_value(s) as u64)
    } else {
        None
    }
}

proof fn lemma_dec_value_nonneg(s: Seq<char>)
    requires
        all_dec(s),
    ensures
        dec_value(s) >= 0,
    decreases s.len(),
{
    if s.len() > 0 {
        lemma_dec_value_nonneg(s.drop_last());
    }
}

proof fn lemma_hex_value_nonneg(s: Seq<char>)
    requires
        all_hex(s),
    ensures
        hex_value(s) >= 0,
    decreases s.len(),
{
    if s.len() > 0 {
        lemma_hex_value_nonneg(s.drop_last());
    }
}

/// A prefix of a run of digits is worth no more than the whole run.
proof fn lemma_dec_value_grows(s: Seq<char>, i: int)
    requires
        all_dec(s),
        0 <= i <= s.len(),
    ensures
        dec_value(s.subrange(0, i)) <= dec_value(s),
    decreases s.len() - i,
{
    if i < s.len() {
        lemma_dec_value_grows(s, i + 1);
        assert(s.subrange(0, i + 1).drop_last() =~= s.subrange(0, i));
        lemma_dec_value_nonneg(s.subrange(0, i));
    } else {
        assert(s.subrange(0, i) =~= s);
    }
}

proof fn lemma_hex_value_grows(s: Seq<char>, i: int)
    requires
        all_hex(s),
        0 <= i <= s.len(),
    ensures
        hex_value(s.subrange(0, i)) <= hex_value(s),
    decreases s.len() - i,
{
    if i < s.len() {
        lemma_hex_value_grows(s, i + 1);
        assert(s.subrange(0, i + 1).drop_last() =~= s.subrange(0, i));
        lemma_hex_value_nonneg(s.subrange(0, i));
    } else {
        assert(s.subrange(0, i) =~= s);
    }
}

/// Reads a run of hexadecimal digits (either case) as a `u64`.
pub fn parse_hex_u64(s: &str) -> (r: Option<u64>)
    ensures
        r == hex_u64(s@),
{
    let n = s.unicode_len();
    if n == 0 {
        return None;
    }
    let mut acc: u64 = 0;
    let mut i: usize = 0;
    while i < n
        invariant
            n == s@.len(),
            i <= n,
            all_hex(s@.subrange(0, i as int)),
            acc as int == hex_value(s@.subrange(0, i as int)),
        decreases n - i,
    {
        let c = s.get_char(i);
        let d: u64;
        if '0' <= c && c <= '9' {
            d = (c as u32 - '0' as u32) as u64;
        } else if 'a' <= c && c <= 'f' {
            d = (c as u32 - 'a' as u32 + 10) as u64;
        } else if 'A' <= c && c <= 'F' {
            d = (c as u32 - 'A' as u32 + 10) as u64;
        } else {
            return None;
        }
        assert(s@.subrange(0, i + 1).drop_last() =~= s@.subrange(0, i as int));
        assert(all_hex(s@.subrange(0, i + 1)));
        if acc > (u64::MAX - d) / 16 {
            proof {
                assert(hex_value(s@.subrange(0, i + 1)) > u64::MAX) by (nonlinear_arith)
                    requires
                        hex_value(s@.subrange(0, i + 1)) == acc * 16 + d,
                        acc > (u64::MAX - d) / 16,
                        d <= 15,
                ;
                if all_hex(s@) {
                    lemma_hex_value_grows(s@, i + 1);
                }
            }
            return None;
        }
        acc = acc * 16 + d;
        i = i + 1;
    }
    assert(s@.subrange(0, n as int) =~= s@);
    Some(acc)
}

/// Reads a run of decimal digits as a `u64`.
pub fn parse_dec_u64(s: &str) -> (r: Option<u64>)
    ensures
        r == dec_u64(s@),
{
    let n = s.unicode_len();
    if n == 0 {
        return None;
    }
    let mut acc: u64 = 0;
    let mut i: usize = 0;
    while i < n
        invariant
            n == s@.len(),
            i <= n,
            all_dec(s@.subrange(0, i as int)),
            acc as int == dec_value(s@.subrange(0, i as int)),
        decreases n - i,
    {
        let c = s.get_char(i);
        if !('0' <= c && c <= '9') {
            return None;
        }
        let d: u64 = (c as u32 - '0' as u32) as u64;
        assert(s@.subrange(0, i + 1).drop_last() =~= s@.subrange(0, i as int));
        assert(all_dec(s@.subrange(0, i + 1)));
        if acc > (u64::MAX - d) / 10 {
            proof {
                assert(dec_value(s@.subrange(0, i + 1)) > u64::MAX) by (nonlinear_arith)
                    requires
                        dec_value(s@.subrange(0, i + 1)) == acc * 10 + d,
                        acc > (u64::MAX - d) / 10,
                        d <= 9,
                ;
                if all_dec(s@) {
                    lemma_dec_value_grows(s@, i + 1);
                }
            }
            return None;
        }
        acc = acc * 10 + d;
        i = i + 1;
    }
    assert(s@.subrange(0, n as int) =~= s@);
    Some(acc)
}

/// Nanoseconds in one second.
pub const NANOS_PER_SEC: u64 = 1_000_000_000;

/// Digits and points only, with at most one point and at least one digit.
pub open spec fn is_decimal_text(s: Seq<char>) -> bool {
    &&& forall|i: int| 0 <= i < s.len() ==> is_dec_digit(#[trigger] s[i]) || s[i] == '.'
    &&& forall|i: int, j: int|
        0 <= i < j < s.len() ==> !(#[trigger] s[i] == '.' && #[trigger] s[j] == '.')
    &&& exists|i: int| 0 <= i < s.len() && is_dec_digit(#[trigger] s[i])
}

/// Where the point stands in a decimal text, or its length where it has none.
pub open spec fn point_index(s: Seq<char>) -> int {
    if exists|i: int| 0 <= i < s.len() && s[i] == '.' {
        choose|i: int| 0 <= i < s.len() && s[i] == '.'
    } else {
        s.len() as int
    }
}

/// The nanoseconds that the digits after a decimal point denote; digits past
/// the ninth are dropped.
pub open spec fn frac_nanos(f: Seq<char>) -> int {
    if f.len() <= 9 {
        dec_value(f) * pow10((9 - f.len()) as nat)
    } else {
        dec_value(f.take(9))
    }
}

/// The whole nanoseconds in a decimal count of seconds (`"0.25"`, `"3."`,
/// `".5"`); `None` for any other text and where they do not fit in a `u64`.
pub open spec fn interval_nanos(s: Seq<char>) -> Option<u64> {
    if !is_decimal_text(s) {
        None
    } else {
        let k = point_index(s);
        let whole = dec_value(s.take(k));
        let frac = if k < s.len() { s.skip(k + 1) } else { Seq::empty() };
        let v = whole * NANOS_PER_SEC + frac_nanos(frac);
        if v <= u64::MAX {
            Some(v as u64)
        } else {
            None
        }
    }
}

proof fn lemma_dec_value_bound(s: Seq<char>)
    requires
        all_dec(s),
    ensures
        0 <= dec_value(s) < pow10(s.len()),
    decreases s.len(),
{
    if s.len() > 0 {
        lemma_dec_value_bound(s.drop_last());
        assert(pow10(s.len()) == 10 * pow10((s.len() - 1) as nat));
    }
}

/// Reads the fraction digits of a decimal text as nanoseconds.
fn parse_frac_nanos(f: &str) -> (r: u64)
    requires
        all_dec(f@),
    ensures
        r == frac_nanos(f@),
        r < NANOS_PER_SEC,
{
    let n = f.unicode_len();
    let m: usize = if n < 9 { n } else { 9 };
    let mut acc: u64 = 0;
    let mut i: usize = 0;
    while i < m
        invariant
            n == f@.len(),
            m <= 9,
            m <= n,
            i <= m,
            all_dec(f@),
            acc as int == dec_value(f@.subrange(0, i as int)),
            acc < pow10(i as nat),
        decreases m - i,
    {
        let c = f.get_char(i);
        let d: u64 = (c as u32 - '0' as u32) as u64;
        assert(f@.subrange(0, i + 1).drop_last() =~= f@.subrange(0, i as int));
        assert(pow10((i + 1) as nat) == 10 * pow10(i as nat));
        assert(pow10(i as nat) <= 100_000_000) by {
            reveal_with_fuel(pow10, 10);
        }
        acc = acc * 10 + d;
        i = i + 1;
    }
    assert(pow10(0) == 1);
    assert(acc as int == dec_value(f@.subrange(0, m as int)) * pow10(0));
    let mut j: usize = m;
    while j < 9
        invariant
            m <= j <= 9,
            m <= n,
            n == f@.len(),
            acc as int == dec_value(f@.subrange(0, m as int)) * pow10((j - m) as nat),
            acc < pow10(j as nat),
        decreases 9 - j,
    {
        assert(pow10((j + 1) as nat) == 10 * pow10(j as nat));
        assert(pow10((j + 1 - m) as nat) == 10 * pow10((j - m) as nat));
        assert(pow10(j as nat) <= 100_000_000) by {
            reveal_with_fuel(pow10, 10);
        }
        assert(10 * (dec_value(f@.subrange(0, m as int)) * pow10((j - m) as nat))
            == dec_value(f@.subrange(0, m as int)) * (10 * pow10((j - m) as nat))) by (nonlinear_arith);
        acc = acc * 10;
        j = j + 1;
    }
    assert(pow10(9) == NANOS_PER_SEC) by {
        reveal_with_fuel(pow10, 10);
    }
    if n <= 9 {
        assert(f@.subrange(0, m as int) =~= f@);
    } else {
        assert(f@.subrange(0, m as int) =~= f@.take(9));
    }
    acc
}

/// Reads a count of seconds written in decimal as whole nanoseconds.
pub fn parse_interval(s: &str) -> (r: Option<u64>)
    ensures
        r == interval_nanos(s@),
{
    let n = s.unicode_len();
    let mut i: usize = 0;
    let mut point: usize = n;
    let mut digits: bool = false;
    while i < n
        invariant
            n == s@.len(),
            i <= n,
            forall|j: int| 0 <= j < i ==> is_dec_digit(#[trigger] s@[j]) || s@[j] == '.',
            point == n ==> forall|j: int| 0 <= j < i ==> #[trigger] s@[j] != '.',
            point < n ==> point < i && s@[point as int] == '.' && forall|j: int|
                0 <= j < i && j != point ==> #[trigger] s@[j] != '.',
            point <= n,
            digits <==> exists|j: int| 0 <= j < i && is_dec_digit(#[trigger] s@[j]),
        decreases n - i,
    {
        let c = s.get_char(i);
        if c == '.' {
            if point < n {
                assert(!is_decimal_text(s@)) by {
                    assert(s@[point as int] == '.' && s@[i as int] == '.');
                }
                return None;
            }
            point = i;
        } else if '0' <= c && c <= '9' {
            digits = true;
        } else {
            assert(!is_decimal_text(s@)) by {
                assert(!(is_dec_digit(s@[i as int]) || s@[i as int] == '.'));
            }
            return None;
        }
        i = i + 1;
    }
    if !digits {
        return None;
    }
    assert(is_decimal_text(s@));
    let ghost k = point_index(s@);
    if point < n {
        assert(k == point);
    } else {
        assert(k == n);
    }
    let frac: u64 = if point < n {
        let frac_text = s.substring_char(point + 1, n);
        assert(frac_text@ =~= s@.skip(k + 1));
        assert(all_dec(frac_text@)) by {
            assert forall|j: int| 0 <= j < frac_text@.len() implies is_dec_digit(
                #[trigger] frac_text@[j],
            ) by {
                assert(frac_text@[j] == s@[point + 1 + j]);
            }
        }
        parse_frac_nanos(frac_text)
    } else {
        proof {
            reveal_with_fuel(pow10, 10);
        }
        0
    };
    let whole_text = s.substring_char(0, point);
    assert(whole_text@ =~= s@.take(k));
    assert(all_dec(whole_text@)) by {
        assert forall|j: int| 0 <= j < whole_text@.len() implies is_dec_digit(
            #[trigger] whole_text@[j],
        ) by {
            assert(whole_text@[j] == s@[j]);
        }
    }
    proof {
        lemma_dec_value_nonneg(whole_text@);
    }
    let whole: u64 = if point == 0 {
        assert(whole_text@ =~= Seq::<char>::empty());
        assert(dec_value(whole_text@) == 0);
        0
    } else {
        match parse_dec_u64(whole_text) {
            Some(w) => w,
            None => {
                return None;
            }
        }
    };
    let ghost fr = if k < s@.len() { s@.skip(k + 1) } else { Seq::empty() };
    assert(frac == frac_nanos(fr)) by {
        if k >= s@.len() {
            assert(fr.len() == 0);
            assert(dec_value(fr) == 0);
        }
    }
    assert(whole == dec_value(s@.take(k)));
    if whole > (u64::MAX - frac) / NANOS_PER_SEC {
        assert(whole * NANOS_PER_SEC + frac > u64::MAX) by (nonlinear_arith)
            requires
                whole > (u64::MAX - frac) as int / NANOS_PER_SEC as int,
                NANOS_PER_SEC == 1_000_000_000,
        ;
        return None;
    }
    assert(whole * NANOS_PER_SEC + frac <= u64::MAX) by (nonlinear_arith)
        requires
            whole <= (u64::MAX - frac) as int / NANOS_PER_SEC as int,
            NANOS_PER_SEC == 1_000_000_000,
            frac <= u64::MAX,
    ;
    Some(whole * NANOS_PER_SEC + frac)
}

} // verus!
