//! Decimal rendering of integers and small string-building helpers.
use vstd::prelude::*;

verus! {

/// `s` ends with `suffix`.
pub open spec fn ends_with(s: Seq<char>, suffix: Seq<char>) -> bool {
    suffix.len() <= s.len() && s.subrange(s.len() - suffix.len(), s.len() as int) == suffix
}

/// `s` holds no `'/'`.
pub open spec fn no_slash(s: Seq<char>) -> bool {
    forall|i: int| 0 <= i < s.len() ==> s[i] != '/'
}

/// Decimal digits hold no `'/'`.
pub proof fn lemma_decimal_no_slash(n: nat)
    ensures
        no_slash(decimal(n)),
    decreases n,
{
    if n >= 10 {
        lemma_decimal_no_slash(n / 10);
    }
}

/// Zero-padded decimal digits hold no `'/'`.
pub proof fn lemma_zero_pad_no_slash(n: nat, width: nat)
    ensures
        no_slash(zero_pad(decimal(n), width)),
{
    lemma_decimal_no_slash(n);
}

/// `a` comes no later than `b` in lexicographic order of code points (the order of
/// Rust's `str` comparison).
pub open spec fn text_le(a: Seq<char>, b: Seq<char>) -> bool
    decreases a.len(),
{
    if a.len() == 0 {
        true
    } else if b.len() == 0 {
        false
    } else if a[0] != b[0] {
        (a[0] as u32) < (b[0] as u32)
    } else {
        text_le(a.drop_first(), b.drop_first())
    }
}

/// Comparing texts of equal length that start with comparable parts: a strictly
/// smaller first part decides, equal first parts defer to the rest.
pub proof fn lemma_text_le_concat(a1: Seq<char>, b1: Seq<char>, a2: Seq<char>, b2: Seq<char>)
    requires
        a1.len() == a2.len(),
        text_le(a1, a2),
        a1 == a2 ==> text_le(b1, b2),
    ensures
        text_le(a1 + b1, a2 + b2),
    decreases a1.len(),
{
    if a1.len() == 0 {
        assert(a1 =~= a2);
        assert(a1 + b1 =~= b1);
        assert(a2 + b2 =~= b2);
    } else {
        assert((a1 + b1)[0] == a1[0] && (a2 + b2)[0] == a2[0]);
        if a1[0] == a2[0] {
            assert((a1 + b1).drop_first() =~= a1.drop_first() + b1);
            assert((a2 + b2).drop_first() =~= a2.drop_first() + b2);
            if a1.drop_first() == a2.drop_first() {
                assert forall|i: int| 0 <= i < a1.len() implies a1[i] == a2[i] by {
                    if i > 0 {
                        assert(a1[i] == a1.drop_first()[i - 1]);
                        assert(a2[i] == a2.drop_first()[i - 1]);
                    }
                }
                assert(a1 =~= a2);
            }
            lemma_text_le_concat(a1.drop_first(), b1, a2.drop_first(), b2);
        }
    }
}

/// Every text comes no later than itself.
pub proof fn lemma_text_le_refl(a: Seq<char>)
    ensures
        text_le(a, a),
    decreases a.len(),
{
    if a.len() > 0 {
        lemma_text_le_refl(a.drop_first());
    }
}

/// Zero-padded decimals of one width compare as the numbers they write.
pub proof fn lemma_zero_padded_order(a: nat, b: nat, width: nat)
    requires
        1 <= width,
        a <= b < pow10(width),
    ensures
        text_le(zero_pad(decimal(a), width), zero_pad(decimal(b), width)),
    decreases width,
{
    let pa = zero_pad(decimal(a), width);
    let pb = zero_pad(decimal(b), width);
    lemma_zero_padded_decimal(a, width);
    lemma_zero_padded_decimal(b, width);
    if width == 1 {
        assert(pow10(1) == 10 * pow10(0));
        assert(pa =~= seq![digit_char(a)]);
        assert(pb =~= seq![digit_char(b)]);
        lemma_digit_order(a, b);
    } else {
        let w1 = (width - 1) as nat;
        assert(pow10(width) == 10 * pow10(w1));
        lemma_padded_split(a, width);
        lemma_padded_split(b, width);
        let qa = zero_pad(decimal(a / 10), w1);
        let qb = zero_pad(decimal(b / 10), w1);
        lemma_zero_padded_order(a / 10, b / 10, w1);
        lemma_zero_padded_decimal(a / 10, w1);
        lemma_zero_padded_decimal(b / 10, w1);
        let da = seq![digit_char(a % 10)];
        let db = seq![digit_char(b % 10)];
        if qa == qb {
            assert(a / 10 == b / 10);
            assert(a % 10 <= b % 10);
            lemma_digit_order(a % 10, b % 10);
        }
        lemma_text_le_concat(qa, da, qb, db);
        assert(pa =~= qa + da);
        assert(pb =~= qb + db);
    }
}

/// The code point of a digit character.
proof fn lemma_digit_code(d: nat)
    requires
        d < 10,
    ensures
        digit_char(d) as u32 == 48 + d,
{
}

/// Single digits compare as the numbers they write.
proof fn lemma_digit_order(a: nat, b: nat)
    requires
        a <= b < 10,
    ensures
        text_le(seq![digit_char(a)], seq![digit_char(b)]),
{
    lemma_digit_code(a);
    lemma_digit_code(b);
    let x = seq![digit_char(a)];
    let y = seq![digit_char(b)];
    assert(x.drop_first() =~= Seq::<char>::empty());
    assert(y.drop_first() =~= Seq::<char>::empty());
    assert(x[0] == digit_char(a) && y[0] == digit_char(b));
    assert(text_le(Seq::<char>::empty(), Seq::<char>::empty()));
    if a < b {
        assert(x[0] != y[0]);
    }
}

/// A zero-padded decimal is the padded decimal of the number without its last
/// digit, followed by that digit.
proof fn lemma_padded_split(n: nat, width: nat)
    requires
        2 <= width,
        n < pow10(width),
    ensures
        zero_pad(decimal(n), width) == zero_pad(decimal(n / 10), (width - 1) as nat).push(
            digit_char(n % 10),
        ),
{
    let w1 = (width - 1) as nat;
    assert(pow10(width) == 10 * pow10(w1));
    lemma_decimal_len(n, width);
    if n >= 10 {
        lemma_decimal_len(n / 10, w1);
        assert(decimal(n) == decimal(n / 10).push(digit_char(n % 10)));
        assert(zero_pad(decimal(n), width) =~= zero_pad(decimal(n / 10), w1).push(
            digit_char(n % 10),
        ));
    } else {
        assert(decimal(n / 10) == seq!['0']);
        assert(decimal(n) == seq![digit_char(n % 10)]);
        assert(zero_pad(decimal(n), width) =~= zero_pad(decimal(n / 10), w1).push(
            digit_char(n % 10),
        ));
    }
}

/// The character of a decimal digit.
pub open spec fn digit_char(d: nat) -> char
    recommends
        d < 10,
{
    if d == 0 { '0' }
    else if d == 1 { '1' }
    else if d == 2 { '2' }
    else if d == 3 { '3' }
    else if d == 4 { '4' }
    else if d == 5 { '5' }
    else if d == 6 { '6' }
    else if d == 7 { '7' }
    else if d == 8 { '8' }
    else { '9' }
}

/// The shortest decimal representation of `n` (no sign, no leading zeros).
pub open spec fn decimal(n: nat) -> Seq<char>
    decreases n,
{
    if n < 10 {
        seq![digit_char(n)]
    } else {
        decimal(n / 10).push(digit_char(n % 10))
    }
}

/// The number written by the decimal digits `s` (leading zeros allowed).
pub open spec fn digits_value(s: Seq<char>) -> nat
    decreases s.len(),
{
    if s.len() == 0 {
        0
    } else {
        digits_value(s.drop_last()) * 10 + digit_value(s.last())
    }
}

/// The value of a decimal digit character.
pub open spec fn digit_value(c: char) -> nat {
    if c == '1' { 1 }
    else if c == '2' { 2 }
    else if c == '3' { 3 }
    else if c == '4' { 4 }
    else if c == '5' { 5 }
    else if c == '6' { 6 }
    else if c == '7' { 7 }
    else if c == '8' { 8 }
    else if c == '9' { 9 }
    else { 0 }
}

/// Reading back a decimal representation gives the number.
pub proof fn lemma_decimal_value(n: nat)
    ensures
        digits_value(decimal(n)) == n,
        decimal(n).len() >= 1,
    decreases n,
{
    let d = decimal(n);
    assert(digit_value(digit_char(n % 10)) == n % 10);
    if n >= 10 {
        lemma_decimal_value(n / 10);
        assert(d.drop_last() =~= decimal(n / 10));
        assert(d.last() == digit_char(n % 10));
        assert(n == (n / 10) * 10 + n % 10);
        assert(digits_value(d) == digits_value(d.drop_last()) * 10 + digit_value(d.last()));
    } else {
        assert(d.drop_last() =~= Seq::<char>::empty());
        assert(digits_value(d) == digits_value(d.drop_last()) * 10 + digit_value(d.last()));
        assert(digits_value(d.drop_last()) == 0);
        assert(n % 10 == n);
    }
}

/// The decimal representation of a number below `10^k` has at most `k` digits.
pub proof fn lemma_decimal_len(n: nat, k: nat)
    requires
        1 <= k,
        n < pow10(k),
    ensures
        decimal(n).len() <= k,
    decreases n,
{
    if n >= 10 {
        assert(k >= 2) by {
            if k == 1 {
                assert(pow10(1) == 10 * pow10(0));
            }
        }
        assert(n / 10 < pow10((k - 1) as nat)) by {
            assert(pow10(k) == 10 * pow10((k - 1) as nat));
        }
        lemma_decimal_len(n / 10, (k - 1) as nat);
    }
}

/// `10^k`.
pub open spec fn pow10(k: nat) -> nat
    decreases k,
{
    if k == 0 { 1 } else { 10 * pow10((k - 1) as nat) }
}

/// Leading zeros do not change the value of digits.
proof fn lemma_leading_zeros(k: nat, s: Seq<char>)
    ensures
        digits_value(Seq::new(k, |i: int| '0') + s) == digits_value(s),
    decreases s.len(), k,
{
    let z = Seq::new(k, |i: int| '0');
    if s.len() == 0 {
        assert(z + s =~= z);
        if k > 0 {
            assert(z.drop_last() =~= Seq::new((k - 1) as nat, |i: int| '0'));
            lemma_leading_zeros((k - 1) as nat, s);
            assert(Seq::new((k - 1) as nat, |i: int| '0') + s =~= Seq::new((k - 1) as nat, |i: int| '0'));
        }
    } else {
        assert((z + s).drop_last() =~= z + s.drop_last());
        lemma_leading_zeros(k, s.drop_last());
    }
}

/// Zero-padded decimals of numbers below `10^width` have exactly `width`
/// characters and read back as the number: different numbers give different texts.
pub proof fn lemma_zero_padded_decimal(n: nat, width: nat)
    requires
        1 <= width,
        n < pow10(width),
    ensures
        zero_pad(decimal(n), width).len() == width,
        digits_value(zero_pad(decimal(n), width)) == n,
{
    lemma_decimal_len(n, width);
    lemma_decimal_value(n);
    if decimal(n).len() < width {
        lemma_leading_zeros((width - decimal(n).len()) as nat, decimal(n));
    }
}

/// `s` preceded by as many `'0'` characters as needed to reach `width`.
pub open spec fn zero_pad(s: Seq<char>, width: nat) -> Seq<char> {
    if s.len() >= width {
        s
    } else {
        Seq::new((width - s.len()) as nat, |i: int| '0') + s
    }
}

/// Calls `String::push`; claims that `c` is appended.
#[verifier::external_body]
pub(crate) fn push_char(s: &mut String, c: char)
    ensures
        final(s)@ == old(s)@.push(c),
{
    s.push(c);
}

fn digit(d: u64) -> (c: char)
    requires
        d < 10,
    ensures
        c == digit_char(d as nat),
{
    if d == 0 { '0' }
    else if d == 1 { '1' }
    else if d == 2 { '2' }
    else if d == 3 { '3' }
    else if d == 4 { '4' }
    else if d == 5 { '5' }
    else if d == 6 { '6' }
    else if d == 7 { '7' }
    else if d == 8 { '8' }
    else { '9' }
}

/// Appends the decimal representation of `n` to `s`.
pub fn push_decimal(s: &mut String, n: u64)
    ensures
        final(s)@ == old(s)@ + decimal(n as nat),
    decreases n,
{
    if n < 10 {
        push_char(s, digit(n));
        assert(decimal(n as nat) == seq![digit_char(n as nat)]);
    } else {
        push_decimal(s, n / 10);
        push_char(s, digit(n % 10));
        assert(decimal(n as nat) == decimal((n / 10) as nat).push(digit_char((n % 10) as nat)));
    }
}

/// The decimal representation of `n`.
pub fn decimal_string(n: u64) -> (r: String)
    ensures
        r@ == decimal(n as nat),
{
    let mut s = String::new();
    push_decimal(&mut s, n);
    assert(s@ =~= decimal(n as nat));
    s
}

/// Appends the decimal representation of `n`, preceded by zeros up to `width` characters.
pub fn push_zero_padded(s: &mut String, n: u64, width: usize)
    ensures
        final(s)@ == old(s)@ + zero_pad(decimal(n as nat), width as nat),
{
    let digits = decimal_string(n);
    let len = digits.as_str().unicode_len();
    let ghost start = s@;
    if len < width {
        let mut k: usize = len;
        while k < width
            invariant
                len <= k <= width,
                s@ == start + Seq::new((k - len) as nat, |i: int| '0'),
            decreases width - k,
        {
            push_char(s, '0');
            k = k + 1;
            assert(s@ =~= start + Seq::new((k - len) as nat, |i: int| '0'));
        }
    }
    s.append(digits.as_str());
    assert(s@ =~= start + zero_pad(decimal(n as nat), width as nat));
}

} // verus!
