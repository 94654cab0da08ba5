use vstd::prelude::*;
use vstd::string::*;

verus! {

/// Whether `c` is one of the ASCII digits `0` to `9`.
pub open spec fn is_digit(c: char) -> bool {
    '0' <= c && c <= '9'
}

/// The numeric value of an ASCII digit.
pub open spec fn digit_value(c: char) -> nat {
    (c as nat - '0' as nat) as nat
}

/// The character that writes the single digit `d`.
pub open spec fn digit_char(d: nat) -> char {
    ((d + 48) as u8) as char
}

/// Whether every character of `s` is a digit.
pub open spec fn all_digits(s: Seq<char>) -> bool {
    forall|i: int| 0 <= i < s.len() ==> is_digit(#[trigger] s[i])
}

/// The number that a string of digits writes in decimal, most significant first.
pub open spec fn decimal_value(s: Seq<char>) -> nat
    decreases s.len(),
{
    if s.len() == 0 {
        0
    } else {
        decimal_value(s.drop_last()) * 10 + digit_value(s.last())
    }
}

/// The shortest decimal writing of `n`, without leading zeros (`0` for zero).
pub open spec fn decimal_text(n: nat) -> Seq<char>
    decreases n,
{
    if n < 10 {
        seq![digit_char(n)]
    } else {
        decimal_text(n / 10).push(digit_char(n % 10))
    }
}

/// Ten to the power `k`.
pub open spec fn ten_pow(k: nat) -> nat
    decreases k,
{
    if k == 0 {
        1
    } else {
        10 * ten_pow((k - 1) as nat)
    }
}

/// A number below ten to the power `k` takes at most `k` digits.
pub proof fn lemma_decimal_text_len(n: nat, k: nat)
    requires
        k >= 1,
        n < ten_pow(k),
    ensures
        decimal_text(n).len() <= k,
    decreases n,
{
    if n >= 10 {
        assert(k >= 2) by {
            if k == 1 {
                assert(ten_pow(1) == 10 * ten_pow(0));
            }
        }
        let t = ten_pow((k - 1) as nat);
        assert(ten_pow(k) == 10 * t);
        assert(n / 10 < t) by (nonlinear_arith)
            requires
                n < 10 * t,
        ;
        lemma_decimal_text_len(n / 10, (k - 1) as nat);
    }
}

/// The decimal writing of `n`, padded on the left with zeros to at least `width` characters.
pub open spec fn padded_text(n: nat, width: nat) -> Seq<char> {
    let t = decimal_text(n);
    if t.len() >= width {
        t
    } else {
        Seq::new((width - t.len()) as nat, |i: int| '0') + t
    }
}

/// The last `w` decimal digits of `n`, most significant first.
pub open spec fn fixed_digits(n: nat, w: nat) -> Seq<char>
    decreases w,
{
    if w == 0 {
        Seq::empty()
    } else {
        fixed_digits(n / 10, (w - 1) as nat).push(digit_char(n % 10))
    }
}

/// Whether `x` sorts before `y` as text: at the first place where they differ, `x` has the
/// smaller character.
pub open spec fn sorts_before(x: Seq<char>, y: Seq<char>) -> bool {
    exists|i: int|
        0 <= i < x.len() && i < y.len() && x.take(i) == y.take(i) && (x[i] as u32) < (
        y[i] as u32)
}

/// Zero written in `w` digits is `w` zeros.
proof fn lemma_fixed_digits_zero(w: nat)
    ensures
        fixed_digits(0, w) == Seq::new(w, |i: int| '0'),
    decreases w,
{
    if w > 0 {
        lemma_fixed_digits_zero((w - 1) as nat);
        assert(digit_char(0) == '0');
        assert(fixed_digits(0, w) =~= Seq::new(w, |i: int| '0'));
    }
}

/// Padding a number that fits in `w` digits gives its last `w` digits.
pub proof fn lemma_padded_is_fixed(n: nat, w: nat)
    requires
        w >= 1,
        n < ten_pow(w),
    ensures
        padded_text(n, w) == fixed_digits(n, w),
    decreases w,
{
    lemma_decimal_text_len(n, w);
    if n < 10 {
        lemma_fixed_digits_zero((w - 1) as nat);
        assert(padded_text(n, w) =~= fixed_digits(n, w));
    } else {
        assert(w >= 2) by {
            if w == 1 {
                assert(ten_pow(1) == 10 * ten_pow(0));
            }
        }
        let t = ten_pow((w - 1) as nat);
        assert(ten_pow(w) == 10 * t);
        assert(n / 10 < t) by (nonlinear_arith)
            requires
                n < 10 * t,
        ;
        lemma_padded_is_fixed(n / 10, (w - 1) as nat);
        lemma_decimal_text_len(n / 10, (w - 1) as nat);
        assert(padded_text(n, w) =~= padded_text(n / 10, (w - 1) as nat).push(digit_char(n % 10)));
    }
}

/// Of two numbers, the smaller one's last `w` digits sort first, where both fit in `w` digits.
pub proof fn lemma_fixed_digits_sort(a: nat, b: nat, w: nat)
    requires
        a < b < ten_pow(w),
    ensures
        fixed_digits(a, w).len() == w,
        fixed_digits(b, w).len() == w,
        sorts_before(fixed_digits(a, w), fixed_digits(b, w)),
    decreases w,
{
    if w == 0 {
        assert(ten_pow(0) == 1);
    } else {
        let t = ten_pow((w - 1) as nat);
        assert(ten_pow(w) == 10 * t);
        let x = fixed_digits(a, w);
        let y = fixed_digits(b, w);
        let xa = fixed_digits(a / 10, (w - 1) as nat);
        let yb = fixed_digits(b / 10, (w - 1) as nat);
        assert(a / 10 <= b / 10) by (nonlinear_arith)
            requires
                a < b,
        ;
        assert(b / 10 < t) by (nonlinear_arith)
            requires
                b < 10 * t,
        ;
        if a / 10 == b / 10 {
            lemma_fixed_digits_len(a / 10, (w - 1) as nat);
            assert(a % 10 < b % 10);
            let i = (w - 1) as int;
            assert(x.take(i) =~= xa);
            assert(y.take(i) =~= yb);
            assert((x[i] as u32) < (y[i] as u32));
        } else {
            lemma_fixed_digits_sort(a / 10, b / 10, (w - 1) as nat);
            let i = choose|i: int|
                0 <= i < xa.len() && i < yb.len() && xa.take(i) == yb.take(i) && (
                xa[i] as u32) < (yb[i] as u32);
            assert(x.take(i) =~= xa.take(i));
            assert(y.take(i) =~= yb.take(i));
            assert(x[i] == xa[i]);
            assert(y[i] == yb[i]);
        }
    }
}

/// The last `w` digits are `w` characters.
proof fn lemma_fixed_digits_len(n: nat, w: nat)
    ensures
        fixed_digits(n, w).len() == w,
    decreases w,
{
    if w > 0 {
        lemma_fixed_digits_len(n / 10, (w - 1) as nat);
    }
}

/// Appends the decimal writing of `n` to `out`.
pub fn push_decimal(n: u64, out: &mut Vec<char>)
    ensures
        final(out)@ == old(out)@ + decimal_text(n as nat),
    decreases n,
{
    if n < 10 {
        out.push(((n as u8) + 48u8) as char);
        assert(out@ =~= old(out)@ + decimal_text(n as nat));
    } else {
        push_decimal(n / 10, out);
        out.push((((n % 10) as u8) + 48u8) as char);
        assert(out@ =~= old(out)@ + decimal_text(n as nat));
    }
}

/// Appends the decimal writing of `n`, padded with zeros to at least `width` characters.
pub fn push_padded(n: u64, width: usize, out: &mut Vec<char>)
    ensures
        final(out)@ == old(out)@ + padded_text(n as nat, width as nat),
{
    let mut digits: Vec<char> = Vec::new();
    push_decimal(n, &mut digits);
    let ghost start = out@;
    if digits.len() < width {
        let pad: usize = width - digits.len();
        let mut i: usize = 0;
        while i < pad
            invariant
                i <= pad,
                out@ == start + Seq::new(i as nat, |j: int| '0'),
            decreases pad - i,
        {
            out.push('0');
            i = i + 1;
            assert(out@ =~= start + Seq::new(i as nat, |j: int| '0'));
        }
    }
    let ghost mid = out@;
    let mut k: usize = 0;
    while k < digits.len()
        invariant
            k <= digits.len(),
            out@ == mid + digits@.take(k as int),
        decreases digits.len() - k,
    {
        out.push(digits[k]);
        k = k + 1;
        assert(out@ =~= mid + digits@.take(k as int));
    }
    assert(digits@.take(digits.len() as int) =~= digits@);
    assert(out@ =~= old(out)@ + padded_text(n as nat, width as nat));
}

/// The path of the file `name` under the storage root `root`.
pub open spec fn path_in_root(root: Seq<char>, name: Seq<char>) -> Seq<char> {
    root + seq!['/'] + name
}

/// The path of the file `name` under the storage root `root`.
pub fn path_in(root: &str, name: &str) -> (r: String)
    ensures
        r@ == path_in_root(root@, name@),
{
    let mut out: Vec<char> = Vec::new();
    let n = root.unicode_len();
    let mut i: usize = 0;
    while i < n
        invariant
            i <= n,
            n == root@.len(),
            out@ == root@.take(i as int),
        decreases n - i,
    {
        out.push(root.get_char(i));
        i = i + 1;
        assert(out@ =~= root@.take(i as int));
    }
    assert(root@.take(n as int) =~= root@);
    out.push('/');
    let ghost mid = out@;
    let m = name.unicode_len();
    let mut j: usize = 0;
    while j < m
        invariant
            j <= m,
            m == name@.len(),
            out@ == mid + name@.take(j as int),
        decreases m - j,
    {
        out.push(name.get_char(j));
        j = j + 1;
        assert(out@ =~= mid + name@.take(j as int));
    }
    assert(name@.take(m as int) =~= name@);
    assert(out@ =~= path_in_root(root@, name@));
    string_of_chars(&out)
}

/// Relies on std's `FromIterator<char>` for `String`: the string holds the chars in order.
#[verifier::external_body]
pub(crate) fn string_of_chars(v: &Vec<char>) -> (r: String)
    ensures
        r@ == v@,
{
    v.iter().collect()
}

} // verus!
