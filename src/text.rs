//! Decimal digits and their values, as used by the sidecar text format.
use vstd::prelude::*;

verus! {

pub open spec fn code(c: char) -> int {
    c as u32 as int
}

pub open spec fn digit_char(d: int) -> char {
    ((d + 48) as u8) as char
}

pub open spec fn is_digit(c: char) -> bool {
    48 <= code(c) <= 57
}

pub open spec fn digit_value(c: char) -> int {
    code(c) - 48
}

pub fn is_digit_char(c: char) -> (r: bool)
    ensures
        r == is_digit(c),
{
    let v = c as u32;
    48 <= v && v <= 57
}

pub open spec fn pow10(k: nat) -> nat
    decreases k,
{
    if k == 0 {
        1
    } else {
        10 * pow10((k - 1) as nat)
    }
}

/// The value of a run of digits, most significant first.
pub open spec fn digits_value(s: Seq<char>) -> nat
    decreases s.len(),
{
    if s.len() == 0 {
        0
    } else {
        (digits_value(s.drop_last()) * 10 + digit_value(s.last())) as nat
    }
}

pub open spec fn all_digits(s: Seq<char>) -> bool {
    forall|i: int| 0 <= i < s.len() ==> is_digit(#[trigger] s[i])
}

/// `n` written with exactly `k` digits, padded with zeros on the left.
pub open spec fn fixed_digits(n: nat, k: nat) -> Seq<char>
    decreases k,
{
    if k == 0 {
        Seq::empty()
    } else {
        fixed_digits(n / 10, (k - 1) as nat).push(digit_char((n % 10) as int))
    }
}

/// `n` in decimal, without leading zeros.
pub open spec fn decimal(n: nat) -> Seq<char>
    decreases n,
{
    if n < 10 {
        seq![digit_char(n as int)]
    } else {
        decimal(n / 10).push(digit_char((n % 10) as int))
    }
}

pub proof fn lemma_pow10_positive(k: nat)
    ensures
        pow10(k) >= 1,
    decreases k,
{
    if k > 0 {
        lemma_pow10_positive((k - 1) as nat);
    }
}

pub proof fn lemma_fixed_digits(n: nat, k: nat)
    requires
        n < pow10(k),
    ensures
        fixed_digits(n, k).len() == k,
        all_digits(fixed_digits(n, k)),
        digits_value(fixed_digits(n, k)) == n,
    decreases k,
{
    if k > 0 {
        let k1 = (k - 1) as nat;
        assert(n / 10 < pow10(k1)) by (nonlinear_arith)
            requires
                n < pow10(k),
                pow10(k) == 10 * pow10(k1),
        ;
        lemma_fixed_digits(n / 10, k1);
        let s = fixed_digits(n, k);
        assert(s.drop_last() =~= fixed_digits(n / 10, k1));
        assert(n == (n / 10) * 10 + n % 10) by (nonlinear_arith);
    } else {
        assert(n == 0);
    }
}

pub proof fn lemma_decimal(n: nat)
    ensures
        1 <= decimal(n).len(),
        n >= 10 ==> decimal(n).len() > 1,
        decimal(n).len() > 1 ==> decimal(n)[0] != '0',
        all_digits(decimal(n)),
        digits_value(decimal(n)) == n,
        n < pow10(20) ==> decimal(n).len() <= 20,
    decreases n,
{
    if n >= 10 {
        lemma_decimal(n / 10);
        let s = decimal(n);
        assert(s.drop_last() =~= decimal(n / 10));
        assert(s[0] == decimal(n / 10)[0]);
        if n / 10 < 10 {
            assert(decimal(n / 10)[0] == digit_char((n / 10) as int));
            assert(code(digit_char((n / 10) as int)) == (n / 10) + 48);
            assert(code('0') == 48);
            assert(n / 10 >= 1);
            assert(s[0] != '0');
        }
        assert(s.len() == decimal(n / 10).len() + 1);
        assert(n == (n / 10) * 10 + n % 10) by (nonlinear_arith);
        if n < pow10(20) {
            lemma_decimal_len(n, 20);
        }
    } else {
        let s = decimal(n);
        assert(s.len() == 1);
        assert(s.drop_last() =~= Seq::<char>::empty());
        assert(s.last() == digit_char(n as int));
        assert(digits_value(s) == digits_value(s.drop_last()) * 10 + digit_value(s.last()));
    }
}

proof fn lemma_decimal_len(n: nat, k: nat)
    requires
        n < pow10(k),
        k >= 1,
    ensures
        decimal(n).len() <= k,
    decreases n,
{
    if n >= 10 {
        let k1 = (k - 1) as nat;
        if k1 == 0 {
            assert(pow10(k) == 10) by {
                assert(pow10(0) == 1);
            }
        } else {
            assert(n / 10 < pow10(k1)) by (nonlinear_arith)
                requires
                    n < pow10(k),
                    pow10(k) == 10 * pow10(k1),
            ;
            lemma_decimal_len(n / 10, k1);
        }
    }
}

/// A run of `k` digits is below `10^k`.
pub proof fn lemma_digits_value_bound(s: Seq<char>)
    requires
        all_digits(s),
    ensures
        digits_value(s) < pow10(s.len()),
    decreases s.len(),
{
    if s.len() > 0 {
        let init = s.drop_last();
        assert(all_digits(init)) by {
            assert forall|i: int| 0 <= i < init.len() implies is_digit(#[trigger] init[i]) by {
                assert(init[i] == s[i]);
            }
        }
        lemma_digits_value_bound(init);
        assert(is_digit(s[s.len() - 1]));
        let v = digits_value(init);
        let d = digit_value(s.last());
        let p = pow10(init.len());
        assert(v * 10 + d < 10 * p) by (nonlinear_arith)
            requires
                v < p,
                0 <= d <= 9,
        ;
    }
}

pub fn push_fixed(out: &mut Vec<char>, n: u64, k: usize)
    ensures
        final(out)@ == old(out)@ + fixed_digits(n as nat, k as nat),
    decreases k,
{
    if k > 0 {
        push_fixed(out, n / 10, k - 1);
        let d = (n % 10) as u8;
        out.push((d + 48) as char);
        assert(final(out)@ =~= old(out)@ + fixed_digits(n as nat, k as nat));
    } else {
        assert(final(out)@ =~= old(out)@ + fixed_digits(n as nat, k as nat));
    }
}

pub fn push_decimal(out: &mut Vec<char>, n: u64)
    ensures
        final(out)@ == old(out)@ + decimal(n as nat),
    decreases n,
{
    if n >= 10 {
        push_decimal(out, n / 10);
    }
    let d = (n % 10) as u8;
    out.push((d + 48) as char);
    assert(final(out)@ =~= old(out)@ + decimal(n as nat));
}

/// What `take_fixed` reads: `k` digits at `p`.
pub open spec fn fixed_at(t: Seq<char>, p: int, k: nat) -> Option<nat> {
    if 0 <= p && p + k <= t.len() && all_digits(t.subrange(p, p + k)) {
        Some(digits_value(t.subrange(p, p + k)))
    } else {
        None
    }
}

/// Reads exactly `k` digits (at most twenty) starting at `p`.
pub fn take_fixed(t: &Vec<char>, p: usize, k: usize) -> (r: Option<u128>)
    requires
        k <= 20,
    ensures
        r matches Some(v) ==> fixed_at(t@, p as int, k as nat) == Some(v as nat),
        r is None ==> fixed_at(t@, p as int, k as nat) is None,
{
    if p > t.len() || k > t.len() - p {
        return None;
    }
    let mut i: usize = 0;
    let mut acc: u128 = 0;
    while i < k
        invariant
            i <= k <= 20,
            p + k <= t.len(),
            all_digits(t@.subrange(p as int, p + i)),
            acc == digits_value(t@.subrange(p as int, p + i)),
            acc < pow10(i as nat),
        decreases k - i,
    {
        let c = t[p + i];
        let cv = c as u32;
        if !(cv >= 48 && cv <= 57) {
            proof {
                assert(t@.subrange(p as int, p + k)[i as int] == c);
            }
            return None;
        }
        let d = (cv - 48) as u128;
        proof {
            let s = t@.subrange(p as int, p + i + 1);
            assert(s.drop_last() =~= t@.subrange(p as int, p + i));
            assert(s.last() == c);
            assert(all_digits(s)) by {
                assert forall|j: int| 0 <= j < s.len() implies is_digit(#[trigger] s[j]) by {
                    if j < i {
                        assert(s[j] == t@.subrange(p as int, p + i)[j]);
                    }
                }
            }
            lemma_digits_value_bound(s);
            assert(pow10(i as nat + 1) <= pow10(20)) by {
                lemma_pow10_mono(i as nat + 1, 20);
            }
            lemma_pow10_20();
        }
        acc = acc * 10 + d;
        i = i + 1;
    }
    Some(acc)
}

pub proof fn lemma_pow10_20()
    ensures
        pow10(20) == 100_000_000_000_000_000_000,
{
    reveal_with_fuel(pow10, 21);
}

/// Length of the run of digits at `i`, counting at most `k`.
pub open spec fn digit_run(t: Seq<char>, i: int, k: nat) -> nat
    decreases k,
{
    if k == 0 || i < 0 || i >= t.len() || !is_digit(t[i]) {
        0
    } else {
        1 + digit_run(t, i + 1, (k - 1) as nat)
    }
}

pub proof fn lemma_digit_run(t: Seq<char>, i: int, k: nat, n: nat)
    requires
        0 <= i,
        i + n <= t.len(),
        n <= k,
        all_digits(t.subrange(i, i + n)),
        i + n == t.len() || !is_digit(t[i + n]) || n == k,
    ensures
        digit_run(t, i, k) == n,
    decreases n,
{
    if n > 0 {
        assert(t.subrange(i, i + n)[0] == t[i]);
        assert(all_digits(t.subrange(i + 1, i + n))) by {
            assert forall|j: int| 0 <= j < n - 1 implies is_digit(#[trigger] t.subrange(i + 1, i + n)[j]) by {
                assert(t.subrange(i + 1, i + n)[j] == t.subrange(i, i + n)[j + 1]);
            }
        }
        lemma_digit_run(t, i + 1, (k - 1) as nat, (n - 1) as nat);
    }
}

/// The number written at `p`: a run of one to twenty digits whose value fits
/// in 64 bits, and the position after it.
pub open spec fn number_at(t: Seq<char>, p: int) -> Option<(nat, int)> {
    let n = digit_run(t, p, 21);
    if 1 <= n <= 20 && (n == 1 || t[p] != '0') && digits_value(t.subrange(p, p + n)) <= u64::MAX {
        Some((digits_value(t.subrange(p, p + n)), p + n))
    } else {
        None
    }
}

pub fn take_number(t: &Vec<char>, p: usize) -> (r: Option<(u64, usize)>)
    ensures
        r matches Some((v, e)) ==> number_at(t@, p as int) == Some((v as nat, e as int)) && e
            <= t@.len(),
        r is None ==> number_at(t@, p as int) is None,
{
    if p >= t.len() {
        return None;
    }
    let mut j: usize = 0;
    while j < 21 && j < t.len() - p && is_digit_char(t[p + j])
        invariant
            j <= 21,
            p < t@.len(),
            digit_run(t@, p as int, 21) == j + digit_run(t@, p + j, (21 - j) as nat),
            p + j <= t@.len(),
            all_digits(t@.subrange(p as int, p + j)),
        decreases 21 - j,
    {
        proof {
            let s = t@.subrange(p as int, p + j + 1);
            assert forall|x: int| 0 <= x < s.len() implies is_digit(#[trigger] s[x]) by {
                if x < j {
                    assert(s[x] == t@.subrange(p as int, p + j)[x]);
                }
            }
        }
        j = j + 1;
    }
    if j == 0 || j > 20 || (j > 1 && t[p] == '0') {
        return None;
    }
    proof {
        lemma_digits_value_bound(t@.subrange(p as int, p + j));
    }
    let v = take_fixed(t, p, j);
    match v {
        Some(v) => {
            if v <= 18446744073709551615u128 {
                Some((v as u64, p + j))
            } else {
                None
            }
        },
        None => None,
    }
}

/// Relies on std's `str::chars`, collected: the characters of `s` in order.
#[verifier::external_body]
pub fn chars_of(s: &str) -> (r: Vec<char>)
    ensures
        r@ == s@,
{
    s.chars().collect()
}

/// Relies on std's `String::from_iter` over characters: the string of `v`.
#[verifier::external_body]
pub fn string_of(v: &Vec<char>) -> (r: String)
    ensures
        r@ == v@,
{
    v.iter().collect()
}

/// Appends the characters of `s`.
pub fn push_str(out: &mut Vec<char>, s: &str)
    ensures
        final(out)@ == old(out)@ + s@,
{
    let cs = chars_of(s);
    let mut i: usize = 0;
    while i < cs.len()
        invariant
            i <= cs@.len(),
            out@ == old(out)@ + cs@.subrange(0, i as int),
        decreases cs@.len() - i,
    {
        out.push(cs[i]);
        assert(cs@.subrange(0, i + 1) =~= cs@.subrange(0, i as int).push(cs@[i as int]));
        i = i + 1;
    }
    assert(cs@.subrange(0, i as int) =~= cs@);
}

pub proof fn lemma_pow10_mono(a: nat, b: nat)
    requires
        a <= b,
    ensures
        pow10(a) <= pow10(b),
    decreases b,
{
    if a < b {
        lemma_pow10_mono(a, (b - 1) as nat);
        lemma_pow10_positive((b - 1) as nat);
    }
}

pub fn chars_equal(a: &Vec<char>, b: &Vec<char>) -> (r: bool)
    ensures
        r == (a@ == b@),
{
    if a.len() != b.len() {
        return false;
    }
    let mut i: usize = 0;
    while i < a.len()
        invariant
            a@.len() == b@.len(),
            i <= a@.len(),
            forall|j: int| 0 <= j < i ==> a@[j] == b@[j],
        decreases a@.len() - i,
    {
        if a[i] != b[i] {
            return false;
        }
        i = i + 1;
    }
    assert(a@ =~= b@);
    true
}

/// Whether two strings hold the same characters.
pub fn str_equal(a: &str, b: &str) -> (r: bool)
    ensures
        r == (a@ == b@),
{
    chars_equal(&chars_of(a), &chars_of(b))
}

} // verus!
