//! Non-negative amounts without an upper bound, held as decimal digits.

use vstd::prelude::*;
use vstd::string::StringExecFns;

verus! {

/// Ten to the power `n`.
spec fn pow10(n: nat) -> nat
    decreases n,
{
    if n == 0 {
        1
    } else {
        10 * pow10((n - 1) as nat)
    }
}

/// The number that `digits` write, least significant digit first.
spec fn digits_value(digits: Seq<u8>) -> nat
    decreases digits.len(),
{
    if digits.len() == 0 {
        0
    } else {
        digits[0] as nat + 10 * digits_value(digits.drop_first())
    }
}

/// Every element is a decimal digit.
spec fn is_digit_seq(digits: Seq<u8>) -> bool {
    forall|i: int| #![trigger digits[i]] 0 <= i < digits.len() ==> digits[i] < 10
}

/// The most significant digit, if there is one, is not zero.
spec fn is_canonical(digits: Seq<u8>) -> bool {
    digits.len() > 0 ==> digits.last() != 0
}

/// The digit of weight `10^i`, zero beyond the last digit held.
spec fn digit_at(digits: Seq<u8>, i: int) -> nat {
    if 0 <= i < digits.len() {
        digits[i] as nat
    } else {
        0
    }
}

/// The number written by the `i` least significant digits.
spec fn prefix_value(digits: Seq<u8>, i: int) -> nat {
    digits_value(
        digits.take(
            if i < digits.len() {
                i
            } else {
                digits.len() as int
            },
        ),
    )
}

/// A digit put above the others adds its weight to the number.
proof fn lemma_value_push(s: Seq<u8>, d: u8)
    ensures
        digits_value(s.push(d)) == digits_value(s) + d * pow10(s.len()),
    decreases s.len(),
{
    if s.len() == 0 {
        assert(s.push(d).drop_first() =~= Seq::<u8>::empty());
        assert(digits_value(s.push(d).drop_first()) == 0);
        assert(d * pow10(0) == d) by (nonlinear_arith)
            requires
                pow10(0) == 1,
        ;
    } else {
        assert(s.push(d).drop_first() =~= s.drop_first().push(d));
        lemma_value_push(s.drop_first(), d);
        let p = pow10((s.len() - 1) as nat);
        assert(pow10(s.len()) == 10 * p);
        assert(10 * (d * p) == d * (10 * p)) by (nonlinear_arith);
    }
}

/// A number of `n` digits is below `10^n`.
proof fn lemma_value_bound(s: Seq<u8>)
    requires
        is_digit_seq(s),
    ensures
        digits_value(s) < pow10(s.len()),
    decreases s.len(),
{
    if s.len() > 0 {
        lemma_value_bound(s.drop_first());
    }
}

/// One more digit adds its weight to the number of the digits below it.
proof fn lemma_prefix_step(s: Seq<u8>, i: int)
    requires
        0 <= i,
    ensures
        prefix_value(s, i + 1) == prefix_value(s, i) + digit_at(s, i) * pow10(i as nat),
{
    if i < s.len() {
        assert(s.take(i + 1) =~= s.take(i).push(s[i]));
        lemma_value_push(s.take(i), s[i]);
    }
}

/// The digits beyond the last one add nothing.
proof fn lemma_prefix_whole(s: Seq<u8>, i: int)
    requires
        s.len() <= i,
    ensures
        prefix_value(s, i) == digits_value(s),
{
    assert(s.take(s.len() as int) =~= s);
}

/// `a - b` where that is not negative, else zero.
pub open spec fn saturating_diff(a: nat, b: nat) -> nat {
    if a >= b {
        (a - b) as nat
    } else {
        0
    }
}

/// The number that `bytes` write in base 256, most significant byte first.
pub open spec fn be_value(bytes: Seq<u8>) -> nat
    decreases bytes.len(),
{
    if bytes.len() == 0 {
        0
    } else {
        be_value(bytes.drop_last()) * 256 + bytes.last() as nat
    }
}

/// One of the characters `0` to `9`.
pub open spec fn is_digit_char(c: char) -> bool {
    '0' <= c && c <= '9'
}

/// The digit that the character `c` stands for.
pub open spec fn digit_of(c: char) -> nat {
    (c as int - 48) as nat
}

/// The character that stands for the digit `d`.
pub open spec fn digit_char(d: nat) -> char {
    (d + 48) as char
}

/// A decimal numeral: one digit at least, and digits only.
pub open spec fn is_decimal(text: Seq<char>) -> bool {
    text.len() > 0 && forall|i: int| 0 <= i < text.len() ==> is_digit_char(#[trigger] text[i])
}

/// The number that a decimal numeral writes, most significant digit first.
pub open spec fn dec_value(text: Seq<char>) -> nat
    decreases text.len(),
{
    if text.len() == 0 {
        0
    } else {
        dec_value(text.drop_last()) * 10 + digit_of(text.last())
    }
}

/// What a text is read as: the number it writes, and zero for a text that
/// is no decimal numeral.
pub open spec fn amount_of(text: Seq<char>) -> nat {
    if is_decimal(text) {
        dec_value(text)
    } else {
        0
    }
}

/// The decimal numeral of `n`, without leading zeros.
pub open spec fn decimal_text(n: nat) -> Seq<char>
    decreases n,
{
    if n < 10 {
        seq![digit_char(n)]
    } else {
        decimal_text(n / 10).push(digit_char(n % 10))
    }
}

/// A decimal numeral without its leading zeros; the last digit always stays.
pub open spec fn canonical_form(text: Seq<char>) -> Seq<char>
    decreases text.len(),
{
    if text.len() > 1 && text[0] == '0' {
        canonical_form(text.drop_first())
    } else {
        text
    }
}

proof fn lemma_reversed_digits(text: Seq<char>, digits: Seq<u8>)
    requires
        digits.len() == text.len(),
        forall|j: int|
            0 <= j < digits.len() ==> #[trigger] digits[j] as nat == digit_of(
                text[text.len() - 1 - j],
            ),
    ensures
        digits_value(digits) == dec_value(text),
    decreases text.len(),
{
    if text.len() > 0 {
        let t = text.drop_last();
        let d = digits.drop_first();
        assert forall|j: int| 0 <= j < d.len() implies #[trigger] d[j] as nat == digit_of(
            t[t.len() - 1 - j],
        ) by {
            assert(d[j] == digits[j + 1]);
        }
        lemma_reversed_digits(t, d);
        assert(digits[0] as nat == digit_of(text[text.len() - 1 - 0]));
    }
}

proof fn lemma_leading_zeros(text: Seq<char>, start: int)
    requires
        0 <= start <= text.len(),
        forall|j: int| 0 <= j < start ==> #[trigger] text[j] == '0',
    ensures
        dec_value(text) == dec_value(text.subrange(start, text.len() as int)),
    decreases text.len(),
{
    let n = text.len() as int;
    if start == 0 {
        assert(text.subrange(0, n) =~= text);
    } else if start == n {
        assert(text.subrange(n, n) =~= Seq::<char>::empty());
        lemma_leading_zeros(text.drop_last(), start - 1);
        assert(text.drop_last().subrange(n - 1, n - 1) =~= Seq::<char>::empty());
        assert(text.last() == text[n - 1]);
    } else {
        lemma_leading_zeros(text.drop_last(), start);
        assert(text.subrange(start, n).drop_last() =~= text.drop_last().subrange(start, n - 1));
    }
}

proof fn lemma_leading_digit(text: Seq<char>)
    requires
        is_decimal(text),
        text[0] != '0',
    ensures
        dec_value(text) > 0,
    decreases text.len(),
{
    if text.len() > 1 {
        assert(is_digit_char(text.drop_last()[0]));
        lemma_leading_digit(text.drop_last());
    } else {
        assert(text.drop_last() =~= Seq::<char>::empty());
        assert(is_digit_char(text[0]));
    }
}

/// A numeral without leading zeros is the numeral of the number it writes.
proof fn lemma_text_of_value(text: Seq<char>)
    requires
        is_decimal(text),
        text.len() == 1 || text[0] != '0',
    ensures
        decimal_text(dec_value(text)) == text,
    decreases text.len(),
{
    let t = text.drop_last();
    let c = text.last();
    assert(is_digit_char(c));
    assert(digit_char(digit_of(c)) == c);
    if text.len() == 1 {
        assert(t =~= Seq::<char>::empty());
        assert(dec_value(t) == 0);
        assert(text =~= seq![c]);
    } else {
        assert(is_digit_char(t[0]));
        lemma_leading_digit(t);
        lemma_text_of_value(t);
        assert(text =~= t.push(c));
    }
}

proof fn lemma_canonical_form(text: Seq<char>)
    requires
        is_decimal(text),
    ensures
        is_decimal(canonical_form(text)),
        canonical_form(text).len() == 1 || canonical_form(text)[0] != '0',
        dec_value(canonical_form(text)) == dec_value(text),
    decreases text.len(),
{
    if text.len() > 1 && text[0] == '0' {
        let rest = text.drop_first();
        assert forall|i: int| 0 <= i < rest.len() implies is_digit_char(#[trigger] rest[i]) by {
            assert(rest[i] == text[i + 1]);
        }
        lemma_canonical_form(rest);
        lemma_leading_zeros(text, 1);
        assert(text.subrange(1, text.len() as int) =~= rest);
    }
}

/// Reading a numeral and writing the result gives the numeral without its
/// leading zeros.
pub proof fn lemma_round_trip(text: Seq<char>)
    requires
        is_decimal(text),
    ensures
        decimal_text(amount_of(text)) == canonical_form(text),
{
    lemma_canonical_form(text);
    lemma_text_of_value(canonical_form(text));
}

/// Writing a number and reading the result gives the number.
pub proof fn lemma_text_value(n: nat)
    ensures
        is_decimal(decimal_text(n)),
        decimal_text(n).len() == 1 || decimal_text(n)[0] != '0',
        amount_of(decimal_text(n)) == n,
    decreases n,
{
    if n < 10 {
        let t = decimal_text(n);
        assert(t.drop_last() =~= Seq::<char>::empty());
        assert(dec_value(t.drop_last()) == 0);
        assert(is_digit_char(t[0]));
    } else {
        lemma_text_value(n / 10);
        let t = decimal_text(n / 10);
        let c = digit_char(n % 10);
        assert(t.push(c).drop_last() =~= t);
        assert(is_digit_char(c));
        assert forall|i: int| 0 <= i < t.push(c).len() implies is_digit_char(
            #[trigger] t.push(c)[i],
        ) by {
            if i < t.len() {
                assert(t.push(c)[i] == t[i]);
            }
        }
        if t.len() == 1 {
            assert(dec_value(t) == n / 10);
            assert(t[0] != '0') by {
                assert(t.drop_last() =~= Seq::<char>::empty());
                assert(dec_value(t.drop_last()) == 0);
            }
        }
    }
}

/// A non-negative integer of any size.
#[derive(Debug, PartialEq, Eq)]
pub struct Amount {
    digits: Vec<u8>,
}

impl View for Amount {
    type V = nat;

    closed spec fn view(&self) -> nat {
        digits_value(self.digits@)
    }
}

/// Drops the zeros above the most significant digit that is not zero.
fn trim(digits: &mut Vec<u8>)
    requires
        is_digit_seq(old(digits)@),
    ensures
        is_digit_seq(final(digits)@),
        is_canonical(final(digits)@),
        digits_value(final(digits)@) == digits_value(old(digits)@),
{
    while digits.len() > 0 && digits[digits.len() - 1] == 0
        invariant
            is_digit_seq(digits@),
            digits_value(digits@) == digits_value(old(digits)@),
        decreases digits.len(),
    {
        proof {
            lemma_value_push(digits@.drop_last(), 0);
            assert(digits@.drop_last().push(0) =~= digits@);
        }
        digits.pop();
    }
}

impl Amount {
    #[verifier::type_invariant]
    spec fn well_formed(&self) -> bool {
        is_digit_seq(self.digits@) && is_canonical(self.digits@)
    }

    /// The amount zero.
    pub fn zero() -> (r: Amount)
        ensures
            r@ == 0,
    {
        Amount { digits: Vec::new() }
    }

    /// The exact sum of two amounts.
    pub fn add(&self, other: &Amount) -> (r: Amount)
        ensures
            r@ == self@ + other@,
    {
        proof {
            use_type_invariant(self);
            use_type_invariant(other);
        }
        let la: usize = self.digits.len();
        let lb: usize = other.digits.len();
        let n: usize = if la >= lb {
            la
        } else {
            lb
        };
        let mut out: Vec<u8> = Vec::new();
        let mut carry: u8 = 0;
        let mut i: usize = 0;
        while i < n
            invariant
                i <= n,
                la == self.digits.len(),
                lb == other.digits.len(),
                la <= n,
                lb <= n,
                out.len() == i,
                carry <= 1,
                is_digit_seq(out@),
                is_digit_seq(self.digits@),
                is_digit_seq(other.digits@),
                digits_value(out@) + carry * pow10(i as nat) == prefix_value(self.digits@, i as int)
                    + prefix_value(other.digits@, i as int),
            decreases n - i,
        {
            let x: u8 = if i < la {
                self.digits[i]
            } else {
                0
            };
            let y: u8 = if i < lb {
                other.digits[i]
            } else {
                0
            };
            let t: u8 = x + y + carry;
            let d: u8 = if t >= 10 {
                t - 10
            } else {
                t
            };
            let c: u8 = if t >= 10 {
                1
            } else {
                0
            };
            proof {
                let p = pow10(i as nat);
                lemma_value_push(out@, d);
                lemma_prefix_step(self.digits@, i as int);
                lemma_prefix_step(other.digits@, i as int);
                assert(d * p + c * (10 * p) == x * p + y * p + carry * p) by (nonlinear_arith)
                    requires
                        d + 10 * c == x + y + carry,
                ;
            }
            out.push(d);
            carry = c;
            i += 1;
        }
        proof {
            lemma_prefix_whole(self.digits@, n as int);
            lemma_prefix_whole(other.digits@, n as int);
            lemma_value_push(out@, carry);
        }
        out.push(carry);
        trim(&mut out);
        Amount { digits: out }
    }

    /// The difference of two amounts, or zero where `other` is the larger.
    pub fn saturating_sub(&self, other: &Amount) -> (r: Amount)
        ensures
            r@ == saturating_diff(self@, other@),
    {
        proof {
            use_type_invariant(self);
            use_type_invariant(other);
        }
        let la: usize = self.digits.len();
        let lb: usize = other.digits.len();
        let n: usize = if la >= lb {
            la
        } else {
            lb
        };
        let mut out: Vec<u8> = Vec::new();
        let mut borrow: u8 = 0;
        let mut i: usize = 0;
        while i < n
            invariant
                i <= n,
                la == self.digits.len(),
                lb == other.digits.len(),
                la <= n,
                lb <= n,
                out.len() == i,
                borrow <= 1,
                is_digit_seq(out@),
                is_digit_seq(self.digits@),
                is_digit_seq(other.digits@),
                digits_value(out@) + prefix_value(other.digits@, i as int) == prefix_value(
                    self.digits@,
                    i as int,
                ) + borrow * pow10(i as nat),
            decreases n - i,
        {
            let x: u8 = if i < la {
                self.digits[i]
            } else {
                0
            };
            let y: u8 = if i < lb {
                other.digits[i]
            } else {
                0
            };
            let need: u8 = y + borrow;
            let d: u8 = if x >= need {
                x - need
            } else {
                x + 10 - need
            };
            let b: u8 = if x >= need {
                0
            } else {
                1
            };
            proof {
                let p = pow10(i as nat);
                lemma_value_push(out@, d);
                lemma_prefix_step(self.digits@, i as int);
                lemma_prefix_step(other.digits@, i as int);
                assert(d * p + y * p + borrow * p == x * p + b * (10 * p)) by (nonlinear_arith)
                    requires
                        d + y + borrow == x + 10 * b,
                ;
            }
            out.push(d);
            borrow = b;
            i += 1;
        }
        proof {
            lemma_prefix_whole(self.digits@, n as int);
            lemma_prefix_whole(other.digits@, n as int);
            lemma_value_bound(out@);
        }
        if borrow == 1 {
            return Amount::zero();
        }
        trim(&mut out);
        Amount { digits: out }
    }

    /// `self * factor + addend`.
    fn mul_add(&self, factor: u64, addend: u64) -> (r: Amount)
        requires
            factor <= 0xffff_ffff,
            addend <= 0xffff_ffff,
        ensures
            r@ == self@ * factor + addend,
    {
        proof {
            use_type_invariant(self);
        }
        let n: usize = self.digits.len();
        let mut out: Vec<u8> = Vec::new();
        let mut carry: u64 = addend;
        let mut i: usize = 0;
        proof {
            assert(self.digits@.take(0) =~= Seq::<u8>::empty());
            assert(prefix_value(self.digits@, 0) * factor == 0) by (nonlinear_arith)
                requires
                    prefix_value(self.digits@, 0) == 0,
            ;
            assert(carry * pow10(0) == carry) by (nonlinear_arith)
                requires
                    pow10(0) == 1,
            ;
        }
        while i < n
            invariant
                i <= n,
                n == self.digits.len(),
                out.len() == i,
                factor <= 0xffff_ffff,
                addend <= 0xffff_ffff,
                carry <= factor + addend,
                is_digit_seq(out@),
                is_digit_seq(self.digits@),
                digits_value(out@) + carry * pow10(i as nat) == prefix_value(
                    self.digits@,
                    i as int,
                ) * factor + addend,
            decreases n - i,
        {
            let x: u64 = self.digits[i] as u64;
            assert(x * factor <= 9 * 0xffff_ffff) by (nonlinear_arith)
                requires
                    x <= 9,
                    factor <= 0xffff_ffff,
            ;
            let t: u64 = x * factor + carry;
            let d: u8 = (t % 10) as u8;
            let c: u64 = t / 10;
            proof {
                let p = pow10(i as nat);
                let before = prefix_value(self.digits@, i as int);
                lemma_value_push(out@, d);
                lemma_prefix_step(self.digits@, i as int);
                assert(d * p + c * (10 * p) + before * factor == (before + x * p) * factor + carry
                    * p) by (nonlinear_arith)
                    requires
                        d + 10 * c == x * factor + carry,
                ;
                assert(x * factor <= 9 * factor) by (nonlinear_arith)
                    requires
                        x <= 9,
                ;
            }
            out.push(d);
            carry = c;
            i += 1;
        }
        proof {
            lemma_prefix_whole(self.digits@, n as int);
        }
        while carry > 0
            invariant
                is_digit_seq(out@),
                digits_value(out@) + carry * pow10(out.len() as nat) == self@ * factor + addend,
            decreases carry,
        {
            let d: u8 = (carry % 10) as u8;
            let c: u64 = carry / 10;
            proof {
                let p = pow10(out.len() as nat);
                lemma_value_push(out@, d);
                assert(d * p + c * (10 * p) == carry * p) by (nonlinear_arith)
                    requires
                        d + 10 * c == carry,
                ;
            }
            out.push(d);
            carry = c;
        }
        trim(&mut out);
        Amount { digits: out }
    }

    /// The amount that `bytes` write in base 256, most significant byte
    /// first: the way a word of an event's data holds an unsigned integer.
    pub fn from_be_bytes(bytes: &[u8]) -> (r: Amount)
        ensures
            r@ == be_value(bytes@),
    {
        let mut acc: Amount = Amount::zero();
        let mut i: usize = 0;
        while i < bytes.len()
            invariant
                i <= bytes.len(),
                acc@ == be_value(bytes@.take(i as int)),
            decreases bytes.len() - i,
        {
            proof {
                assert(bytes@.take(i + 1).drop_last() =~= bytes@.take(i as int));
            }
            acc = acc.mul_add(256, bytes[i] as u64);
            i += 1;
        }
        proof {
            assert(bytes@.take(bytes.len() as int) =~= bytes@);
        }
        acc
    }

    /// Reads a decimal numeral. A text that is none (empty, or with a
    /// character that is no digit) is read as zero.
    pub fn parse(text: &str) -> (r: Amount)
        ensures
            r@ == amount_of(text@),
    {
        if !text.is_ascii() {
            return Amount::zero();
        }
        let bytes: &[u8] = text.as_bytes();
        proof {
            vstd::string::is_ascii_spec_bytes(text);
        }
        let n: usize = bytes.len();
        let mut i: usize = 0;
        while i < n
            invariant
                i <= n,
                n == text@.len(),
                n == bytes@.len(),
                forall|j: int| 0 <= j < n ==> bytes@[j] == text@[j] as u8,
                forall|j: int| 0 <= j < n ==> '\0' <= #[trigger] text@[j] <= '\u{7f}',
                forall|j: int| 0 <= j < i ==> is_digit_char(#[trigger] text@[j]),
            decreases n - i,
        {
            let b: u8 = bytes[i];
            if b < 48 || b > 57 {
                assert(!is_digit_char(text@[i as int]));
                return Amount::zero();
            }
            i += 1;
        }
        let mut start: usize = 0;
        while start < n && bytes[start] == 48
            invariant
                start <= n,
                n == text@.len(),
                n == bytes@.len(),
                forall|j: int| 0 <= j < n ==> bytes@[j] == text@[j] as u8,
                forall|j: int| 0 <= j < n ==> is_digit_char(#[trigger] text@[j]),
                forall|j: int| 0 <= j < start ==> #[trigger] text@[j] == '0',
            decreases n - start,
        {
            assert(is_digit_char(text@[start as int]));
            start += 1;
        }
        let mut out: Vec<u8> = Vec::new();
        let mut k: usize = n;
        while k > start
            invariant
                start <= k <= n,
                n == text@.len(),
                n == bytes@.len(),
                out.len() == n - k,
                forall|j: int| 0 <= j < n ==> bytes@[j] == text@[j] as u8,
                forall|j: int| 0 <= j < n ==> is_digit_char(#[trigger] text@[j]),
                forall|j: int|
                    0 <= j < out.len() ==> #[trigger] out@[j] as nat == digit_of(text@[n - 1 - j]),
            decreases k,
        {
            k -= 1;
            assert(is_digit_char(text@[k as int]));
            out.push(bytes[k] - 48);
        }
        proof {
            let kept = text@.subrange(start as int, n as int);
            assert forall|j: int| 0 <= j < out@.len() implies #[trigger] out@[j] as nat
                == digit_of(kept[kept.len() - 1 - j]) by {
                assert(kept[kept.len() - 1 - j] == text@[n - 1 - j]);
            }
            lemma_reversed_digits(kept, out@);
            lemma_leading_zeros(text@, start as int);
            assert forall|j: int| 0 <= j < out@.len() implies out@[j] < 10 by {
                assert(is_digit_char(text@[n - 1 - j]));
            }
            if start < n {
                assert(is_digit_char(text@[start as int]));
                assert(out@.last() as nat == digit_of(text@[n - 1 - (out@.len() - 1)]));
            }
        }
        Amount { digits: out }
    }

    /// The decimal numeral of the amount, without leading zeros.
    pub fn to_decimal_string(&self) -> (r: String)
        ensures
            r@ == decimal_text(self@),
    {
        proof {
            use_type_invariant(self);
        }
        let n: usize = self.digits.len();
        let mut out: String = String::new();
        if n == 0 {
            out.append(digit_str(0));
            assert(out@ =~= seq![digit_char(0)]);
            return out;
        }
        let mut k: usize = n;
        while k > 0
            invariant
                k <= n,
                n == self.digits.len(),
                n > 0,
                is_digit_seq(self.digits@),
                self.digits@[n - 1] != 0,
                k == n ==> out@ == Seq::<char>::empty(),
                k < n ==> digits_value(self.digits@.subrange(k as int, n as int)) > 0,
                k < n ==> out@ == decimal_text(
                    digits_value(self.digits@.subrange(k as int, n as int)),
                ),
            decreases k,
        {
            k -= 1;
            let d: u8 = self.digits[k];
            proof {
                let suffix = self.digits@.subrange(k as int, n as int);
                let rest = self.digits@.subrange(k + 1, n as int);
                assert(suffix.drop_first() =~= rest);
                assert(suffix[0] == d);
                if k + 1 == n {
                    assert(digits_value(rest) == 0);
                    assert(out@ + seq![digit_char(d as nat)] =~= seq![digit_char(d as nat)]);
                } else {
                    assert(out@ + seq![digit_char(d as nat)] =~= out@.push(digit_char(d as nat)));
                }
            }
            out.append(digit_str(d));
        }
        proof {
            assert(self.digits@.subrange(0, n as int) =~= self.digits@);
        }
        out
    }
}

/// The one-character text of a decimal digit.
fn digit_str(d: u8) -> (r: &'static str)
    requires
        d < 10,
    ensures
        r@ == seq![digit_char(d as nat)],
{
    proof {
        reveal_strlit("0");
        reveal_strlit("1");
        reveal_strlit("2");
        reveal_strlit("3");
        reveal_strlit("4");
        reveal_strlit("5");
        reveal_strlit("6");
        reveal_strlit("7");
        reveal_strlit("8");
        reveal_strlit("9");
    }
    let r: &'static str = match d {
        0 => "0",
        1 => "1",
        2 => "2",
        3 => "3",
        4 => "4",
        5 => "5",
        6 => "6",
        7 => "7",
        8 => "8",
        _ => "9",
    };
    assert(r@ =~= seq![digit_char(d as nat)]);
    r
}

} // verus!
