use vstd::prelude::*;
use vstd::string::*;

use crate::text::{
    all_digits, decimal_text, decimal_value, digit_char, digit_value, is_digit, padded_text, push_decimal,
    push_padded, string_of_chars,
};

verus! {

/// The largest whole-euro part whose amount in cents still fits in a `u64`.
const MAX_WHOLE: u64 = 184467440737095516;

/// An amount of money in euro, held as a whole number of cents.
#[derive(Clone, Copy, Debug, PartialEq, Eq, Structural)]
pub struct Euro(u64);

/// Why a text is not an amount of money.
#[derive(Debug, PartialEq, Eq, Structural)]
pub enum ParseMoneyError {
    /// The text is not a non-negative decimal number.
    Malformed,
    /// The amount is too large to be held in cents.
    OutOfRange,
}

/// Whether `k` is the place of the one decimal point of `s`, with digits on both sides of it
/// and at least one digit in all.
pub open spec fn point_at(s: Seq<char>, k: int) -> bool {
    &&& 0 <= k < s.len()
    &&& s[k] == '.'
    &&& s.len() >= 2
    &&& all_digits(s.take(k))
    &&& all_digits(s.skip(k + 1))
}

/// The cents that the digits after a decimal point give: the first two, the rest truncated.
pub open spec fn fraction_cents(f: Seq<char>) -> nat {
    (if f.len() > 0 { 10 * digit_value(f[0]) } else { 0 }) + (if f.len() > 1 {
        digit_value(f[1])
    } else {
        0
    })
}

/// The amount in cents that a decimal text writes, or `None` where it writes no
/// non-negative decimal number.
pub open spec fn cents_of_text(s: Seq<char>) -> Option<nat> {
    if s.len() > 0 && all_digits(s) {
        Some(100 * decimal_value(s))
    } else if exists|k: int| point_at(s, k) {
        let k = choose|k: int| point_at(s, k);
        Some(100 * decimal_value(s.take(k)) + fraction_cents(s.skip(k + 1)))
    } else {
        None
    }
}

/// The text of an amount: whole euros, a point, and exactly two digits of cents.
pub open spec fn text_of_cents(c: nat) -> Seq<char> {
    decimal_text(c / 100) + seq!['.'] + padded_text(c % 100, 2)
}

/// A longer string of digits never writes a smaller number.
proof fn lemma_decimal_value_grows(s: Seq<char>, i: int)
    requires
        0 <= i <= s.len(),
    ensures
        decimal_value(s.take(i)) <= decimal_value(s),
    decreases s.len() - i,
{
    if i < s.len() {
        lemma_decimal_value_grows(s, i + 1);
        assert(s.take(i + 1).drop_last() =~= s.take(i));
    } else {
        assert(s.take(i) =~= s);
    }
}

impl Euro {
    /// The amount in cents.
    pub closed spec fn cents_view(self) -> nat {
        self.0 as nat
    }

    pub fn from_cents(cents: u64) -> (r: Euro)
        ensures
            r.cents_view() == cents,
    {
        Euro(cents)
    }

    /// The amount in cents.
    pub fn cents(&self) -> (r: u64)
        ensures
            r == self.cents_view(),
    {
        self.0
    }

    /// Reads a non-negative decimal amount such as `7.10` or `7.1`; digits past the
    /// second after the point are cut off.
    pub fn from_str(s: &str) -> (r: Result<Euro, ParseMoneyError>)
        ensures
            cents_of_text(s@) is None <==> r == Err::<Euro, ParseMoneyError>(
                ParseMoneyError::Malformed,
            ),
            r is Ok ==> cents_of_text(s@) == Some(r->Ok_0.cents_view()),
            r == Err::<Euro, ParseMoneyError>(ParseMoneyError::OutOfRange) <==> (
            cents_of_text(s@) is Some && cents_of_text(s@)->Some_0 > u64::MAX),
    {
        let n = s.unicode_len();
        let mut k: usize = 0;
        while k < n && s.get_char(k) != '.'
            invariant
                k <= n,
                n == s@.len(),
                forall|j: int| 0 <= j < k ==> s@[j] != '.',
            decreases n - k,
        {
            k = k + 1;
        }
        // Every character but the point must be a digit.
        let mut i: usize = 0;
        while i < n
            invariant
                i <= n,
                n == s@.len(),
                k <= n,
                k < n ==> s@[k as int] == '.',
                forall|j: int| 0 <= j < k ==> s@[j] != '.',
                forall|j: int| 0 <= j < i && j != k ==> is_digit(#[trigger] s@[j]),
            decreases n - i,
        {
            let c = s.get_char(i);
            if i != k && !('0' <= c && c <= '9') {
                proof {
                    assert(!all_digits(s@));
                    assert forall|k2: int| !point_at(s@, k2) by {
                        if point_at(s@, k2) {
                            if k2 < k {
                                assert(s@[k2] != '.');
                            } else if k2 > k {
                                assert(s@.take(k2)[k as int] == '.');
                            } else if i < k {
                                assert(s@.take(k2)[i as int] == c);
                            } else {
                                assert(s@.skip(k2 + 1)[i - k2 - 1] == c);
                            }
                        }
                    }
                }
                return Err(ParseMoneyError::Malformed);
            }
            i = i + 1;
        }
        if n == 0 || (k == 0 && n == 1) {
            proof {
                assert forall|k2: int| !point_at(s@, k2) by {}
            }
            return Err(ParseMoneyError::Malformed);
        }
        proof {
            if k < n {
                assert(all_digits(s@.take(k as int)));
                assert(all_digits(s@.skip(k + 1)));
                assert(point_at(s@, k as int));
                assert(!all_digits(s@));
                assert forall|k2: int| point_at(s@, k2) implies k2 == k by {
                    if k2 < k {
                        assert(s@[k2] != '.');
                    } else if k2 > k {
                        assert(s@.take(k2)[k as int] == '.');
                    }
                }
            } else {
                assert(all_digits(s@));
                assert(s@.take(k as int) =~= s@);
            }
        }
        let ghost whole_text = s@.take(k as int);
        assert(cents_of_text(s@) is Some);
        assert(cents_of_text(s@)->Some_0 >= 100 * decimal_value(whole_text));
        // The whole euros.
        let mut whole: u64 = 0;
        let mut j: usize = 0;
        while j < k
            invariant
                j <= k,
                k <= n,
                n == s@.len(),
                whole_text == s@.take(k as int),
                all_digits(whole_text),
                whole == decimal_value(whole_text.take(j as int)),
                whole <= MAX_WHOLE,
                cents_of_text(s@) is Some,
                cents_of_text(s@)->Some_0 >= 100 * decimal_value(whole_text),
            decreases k - j,
        {
            let c = s.get_char(j);
            assert(whole_text[j as int] == c);
            assert(is_digit(whole_text[j as int]));
            let d = ((c as u32) - 48) as u64;
            assert(whole_text.take(j + 1).drop_last() =~= whole_text.take(j as int));
            if whole > (MAX_WHOLE - d) / 10 {
                proof {
                    lemma_decimal_value_grows(whole_text, j + 1);
                    assert(whole * 10 + d > MAX_WHOLE) by (nonlinear_arith)
                        requires
                            whole > (MAX_WHOLE - d) / 10,
                            d <= 9,
                    ;
                }
                return Err(ParseMoneyError::OutOfRange);
            }
            whole = whole * 10 + d;
            j = j + 1;
        }
        assert(whole_text.take(k as int) =~= whole_text);
        let mut frac: u64 = 0;
        if n - k > 1 {
            let c = s.get_char(k + 1);
            assert(s@.skip(k + 1)[0] == c);
            assert(is_digit(s@.skip(k + 1)[0]));
            frac = ((c as u32) - 48) as u64 * 10;
        }
        if n - k > 2 {
            let c = s.get_char(k + 2);
            assert(s@.skip(k + 1)[1] == c);
            assert(is_digit(s@.skip(k + 1)[1]));
            frac = frac + ((c as u32) - 48) as u64;
        }
        proof {
            if k == n {
                assert(s@.take(k as int) =~= s@);
            } else {
                assert(frac == fraction_cents(s@.skip(k + 1)));
            }
            assert(cents_of_text(s@) == Some((100 * whole + frac) as nat));
        }
        if whole > (u64::MAX - frac) / 100 {
            return Err(ParseMoneyError::OutOfRange);
        }
        Ok(Euro(whole * 100 + frac))
    }

    /// The amount as text: whole euros, a point, and two digits of cents (`7.10`).
    pub fn to_string(&self) -> (r: String)
        ensures
            r@ == text_of_cents(self.cents_view()),
    {
        let mut out: Vec<char> = Vec::new();
        push_decimal(self.0 / 100, &mut out);
        out.push('.');
        push_padded(self.0 % 100, 2, &mut out);
        assert(out@ =~= text_of_cents(self.cents_view()));
        string_of_chars(&out)
    }
}

/// A digit's character reads back as the digit.
proof fn lemma_digit_round_trip(d: nat)
    requires
        d < 10,
    ensures
        is_digit(digit_char(d)),
        digit_value(digit_char(d)) == d,
{
}

/// The decimal writing of a number is all digits and reads back as the number.
proof fn lemma_decimal_text_reads_back(n: nat)
    ensures
        all_digits(decimal_text(n)),
        decimal_value(decimal_text(n)) == n,
        decimal_text(n).len() >= 1,
    decreases n,
{
    lemma_digit_round_trip(n % 10);
    if n >= 10 {
        lemma_decimal_text_reads_back(n / 10);
        let t = decimal_text(n);
        assert(t.drop_last() =~= decimal_text(n / 10));
        assert(t.last() == digit_char(n % 10));
        assert(decimal_value(t) == decimal_value(decimal_text(n / 10)) * 10 + n % 10);
        assert forall|i: int| 0 <= i < t.len() implies is_digit(#[trigger] t[i]) by {
            if i < t.len() - 1 {
                assert(t[i] == decimal_text(n / 10)[i]);
            }
        }
    } else {
        let t = decimal_text(n);
        assert(t.drop_last() =~= Seq::<char>::empty());
        assert(decimal_value(t.drop_last()) == 0);
        assert(t.last() == digit_char(n));
    }
}

/// Two digits of cents, zero-padded, are the tens digit and the units digit.
proof fn lemma_two_digit_text(m: nat)
    requires
        m < 100,
    ensures
        padded_text(m, 2) == seq![digit_char(m / 10), digit_char(m % 10)],
{
    if m < 10 {
        assert(decimal_text(m) == seq![digit_char(m)]);
        assert(digit_char(0) == '0');
        assert(padded_text(m, 2) =~= seq![digit_char(m / 10), digit_char(m % 10)]);
    } else {
        assert(decimal_text(m / 10) == seq![digit_char(m / 10)]);
        assert(decimal_text(m) =~= seq![digit_char(m / 10), digit_char(m % 10)]);
    }
}

/// Reading back the text of any amount gives the same amount, to the cent.
pub proof fn lemma_text_reads_back(c: nat)
    ensures
        cents_of_text(text_of_cents(c)) == Some(c),
{
    let w = decimal_text(c / 100);
    let m = c % 100;
    lemma_decimal_text_reads_back(c / 100);
    lemma_two_digit_text(m);
    lemma_digit_round_trip(m / 10);
    lemma_digit_round_trip(m % 10);
    let s = text_of_cents(c);
    let k = w.len() as int;
    assert(s == w + seq!['.'] + seq![digit_char(m / 10), digit_char(m % 10)]);
    assert(s.take(k) =~= w);
    assert(s.skip(k + 1) =~= seq![digit_char(m / 10), digit_char(m % 10)]);
    assert(point_at(s, k));
    assert(!all_digits(s)) by {
        assert(!is_digit(s[k]));
    }
    assert forall|k2: int| point_at(s, k2) implies k2 == k by {
        if k2 < k {
            assert(s[k2] == w[k2]);
        } else if k2 > k {
            assert(s.take(k2)[k] == '.');
        }
    }
    assert(fraction_cents(s.skip(k + 1)) == m);
}

} // verus!
