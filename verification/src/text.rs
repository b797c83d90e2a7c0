//! Building strings: characters, decimal numbers with zero padding.

use vstd::prelude::*;

verus! {

/// `String::push`: the string afterwards is the string before, followed by `c`.
#[verifier::external_body]
pub(crate) fn push_char(s: &mut String, c: char)
    ensures
        final(s)@ == old(s)@.push(c),
{
    s.push(c);
}

/// Appends the characters of `t` to `s`.
pub(crate) fn push_str(s: &mut String, t: &str)
    ensures
        final(s)@ == old(s)@ + t@,
{
    s.append(t);
}

pub open spec fn digit_char(d: nat) -> char {
    seq!['0', '1', '2', '3', '4', '5', '6', '7', '8', '9'][d as int]
}

/// The decimal digits of `n`, most significant first, without leading zeros.
pub open spec fn decimal(n: nat) -> Seq<char>
    decreases n,
{
    if n < 10 {
        seq![digit_char(n)]
    } else {
        decimal(n / 10).push(digit_char(n % 10))
    }
}

/// `decimal(n)` preceded by as many zeros as make it at least `width` characters long.
pub open spec fn zero_padded(n: nat, width: nat) -> Seq<char> {
    let digits = decimal(n);
    if digits.len() >= width {
        digits
    } else {
        Seq::new((width - digits.len()) as nat, |i: int| '0') + digits
    }
}

proof fn lemma_decimal_len(n: nat)
    ensures
        n < 10 ==> decimal(n).len() == 1,
        10 <= n < 100 ==> decimal(n).len() == 2,
        100 <= n < 1000 ==> decimal(n).len() == 3,
        1000 <= n < 10000 ==> decimal(n).len() == 4,
        1000 <= n ==> decimal(n).len() >= 4,
    decreases n,
{
    if n >= 10 {
        lemma_decimal_len(n / 10);
    }
}

/// A number with fewer digits than `width` is padded to exactly `width` characters.
pub proof fn lemma_zero_padded_len(n: nat, width: nat)
    requires
        1 <= width <= 4,
        width == 1 ==> n < 10,
        width == 2 ==> n < 100,
        width == 3 ==> n < 1000,
        width == 4 ==> n < 10000,
    ensures
        zero_padded(n, width).len() == width,
{
    lemma_decimal_len(n);
}

/// `a` comes before `b` in the order of strings: at the first position where they differ
/// `a` has the smaller character, or `a` is a proper prefix of `b`.
pub open spec fn text_lt(a: Seq<char>, b: Seq<char>) -> bool {
    (exists|i: int|
        #![trigger a[i], b[i]]
        0 <= i < a.len() && i < b.len() && a.take(i) == b.take(i) && a[i] < b[i]) || (a.len()
        < b.len() && b.take(a.len() as int) == a)
}

/// Of texts of equal lengths, joined to texts of equal lengths, the order is decided by the
/// first parts, or by the second parts where the first are equal.
pub proof fn lemma_text_lt_concat(a1: Seq<char>, a2: Seq<char>, b1: Seq<char>, b2: Seq<char>)
    requires
        a1.len() == b1.len(),
        a2.len() == b2.len(),
        text_lt(a1, b1) || (a1 == b1 && text_lt(a2, b2)),
    ensures
        text_lt(a1 + a2, b1 + b2),
{
    let a = a1 + a2;
    let b = b1 + b2;
    if text_lt(a1, b1) {
        let i = choose|i: int|
            #![trigger a1[i], b1[i]]
            0 <= i < a1.len() && i < b1.len() && a1.take(i) == b1.take(i) && a1[i] < b1[i];
        assert(a.take(i) =~= a1.take(i));
        assert(b.take(i) =~= b1.take(i));
        assert(a[i] == a1[i] && b[i] == b1[i]);
    } else {
        let j = choose|j: int|
            #![trigger a2[j], b2[j]]
            0 <= j < a2.len() && j < b2.len() && a2.take(j) == b2.take(j) && a2[j] < b2[j];
        let i = a1.len() + j;
        assert(a.take(i) =~= a1 + a2.take(j));
        assert(b.take(i) =~= b1 + b2.take(j));
        assert(a[i] == a2[j] && b[i] == b2[j]);
    }
}

proof fn lemma_digit_char(d: nat)
    requires
        d < 10,
    ensures
        digit_char(d) as int == 48 + d,
{
    let digits = seq!['0', '1', '2', '3', '4', '5', '6', '7', '8', '9'];
    assert(digits[0] == '0' && digits[1] == '1' && digits[2] == '2' && digits[3] == '3'
        && digits[4] == '4' && digits[5] == '5' && digits[6] == '6' && digits[7] == '7'
        && digits[8] == '8' && digits[9] == '9');
}

proof fn lemma_zero_padded_digits2(n: nat)
    requires
        n < 100,
    ensures
        zero_padded(n, 2) == seq![digit_char(n / 10), digit_char(n % 10)],
{
    lemma_decimal_len(n);
    assert(digit_char(0) == '0');
    if n < 10 {
        assert(decimal(n) == seq![digit_char(n)]);
    } else {
        assert(decimal(n / 10) =~= seq![digit_char(n / 10)]);
        assert(decimal(n) =~= seq![digit_char(n / 10), digit_char(n % 10)]);
    }
    assert(zero_padded(n, 2) =~= seq![digit_char(n / 10), digit_char(n % 10)]);
}

proof fn lemma_zero_padded_digits3(n: nat)
    requires
        n < 1000,
    ensures
        zero_padded(n, 3) == seq![digit_char(n / 100), digit_char((n / 10) % 10), digit_char(n % 10)],
{
    lemma_decimal_len(n);
    assert((n / 10) / 10 == n / 100);
    assert(digit_char(0) == '0');
    if n < 10 {
        assert(decimal(n) == seq![digit_char(n)]);
    } else if n < 100 {
        assert(decimal(n / 10) =~= seq![digit_char(n / 10)]);
        assert(decimal(n) =~= seq![digit_char(n / 10), digit_char(n % 10)]);
    } else {
        assert(decimal(n / 100) =~= seq![digit_char(n / 100)]);
        assert(decimal(n / 10) =~= seq![digit_char(n / 100), digit_char((n / 10) % 10)]);
        assert(decimal(n) =~= seq![digit_char(n / 100), digit_char((n / 10) % 10), digit_char(n % 10)]);
    }
    assert(zero_padded(n, 3) =~= seq![
        digit_char(n / 100),
        digit_char((n / 10) % 10),
        digit_char(n % 10),
    ]);
}

proof fn lemma_zero_padded_digits4(n: nat)
    requires
        n < 10000,
    ensures
        zero_padded(n, 4) == seq![
            digit_char(n / 1000),
            digit_char((n / 100) % 10),
            digit_char((n / 10) % 10),
            digit_char(n % 10),
        ],
{
    lemma_decimal_len(n);
    assert((n / 10) / 10 == n / 100);
    assert((n / 100) / 10 == n / 1000);
    assert(digit_char(0) == '0');
    if n < 1000 {
        lemma_zero_padded_digits3(n);
        let d = decimal(n);
        assert(zero_padded(n, 4) =~= seq!['0'] + zero_padded(n, 3));
    } else {
        assert(decimal(n / 1000) =~= seq![digit_char(n / 1000)]);
        assert(decimal(n / 100) =~= seq![digit_char(n / 1000), digit_char((n / 100) % 10)]);
        assert(decimal(n / 10) =~= seq![
            digit_char(n / 1000),
            digit_char((n / 100) % 10),
            digit_char((n / 10) % 10),
        ]);
        assert(decimal(n) =~= seq![
            digit_char(n / 1000),
            digit_char((n / 100) % 10),
            digit_char((n / 10) % 10),
            digit_char(n % 10),
        ]);
    }
    assert(zero_padded(n, 4) =~= seq![
        digit_char(n / 1000),
        digit_char((n / 100) % 10),
        digit_char((n / 10) % 10),
        digit_char(n % 10),
    ]);
}

proof fn lemma_digit_lt(a: Seq<char>, b: Seq<char>, k: int, x: nat, y: nat)
    requires
        0 <= k < a.len(),
        a.len() == b.len(),
        a.take(k) == b.take(k),
        a[k] == digit_char(x),
        b[k] == digit_char(y),
        x < y < 10,
    ensures
        text_lt(a, b),
{
    lemma_digit_char(x);
    lemma_digit_char(y);
    assert(a[k] < b[k]);
}

proof fn lemma_zero_padded_lt2(n1: nat, n2: nat)
    requires
        n1 < n2 < 100,
    ensures
        text_lt(zero_padded(n1, 2), zero_padded(n2, 2)),
{
    lemma_zero_padded_digits2(n1);
    lemma_zero_padded_digits2(n2);
    let a = zero_padded(n1, 2);
    let b = zero_padded(n2, 2);
    if n1 / 10 < n2 / 10 {
        assert(a.take(0) =~= b.take(0));
        lemma_digit_lt(a, b, 0, n1 / 10, n2 / 10);
    } else {
        assert(a.take(1) =~= b.take(1));
        lemma_digit_lt(a, b, 1, n1 % 10, n2 % 10);
    }
}

#[verifier::spinoff_prover]
proof fn lemma_zero_padded_lt3(n1: nat, n2: nat)
    requires
        n1 < n2 < 1000,
    ensures
        text_lt(zero_padded(n1, 3), zero_padded(n2, 3)),
{
    lemma_zero_padded_digits3(n1);
    lemma_zero_padded_digits3(n2);
    let a = zero_padded(n1, 3);
    let b = zero_padded(n2, 3);
    if n1 / 100 < n2 / 100 {
        assert(a.take(0) =~= b.take(0));
        lemma_digit_lt(a, b, 0, n1 / 100, n2 / 100);
    } else if n1 / 10 < n2 / 10 {
        assert((n1 / 10) % 10 < (n2 / 10) % 10);
        assert(a.take(1) =~= b.take(1));
        lemma_digit_lt(a, b, 1, (n1 / 10) % 10, (n2 / 10) % 10);
    } else {
        assert(a.take(2) =~= b.take(2));
        lemma_digit_lt(a, b, 2, n1 % 10, n2 % 10);
    }
}

proof fn lemma_four_digits(n: nat)
    requires
        n < 10000,
    ensures
        n == 1000 * (n / 1000) + 100 * ((n / 100) % 10) + 10 * ((n / 10) % 10) + n % 10,
        n / 1000 < 10,
{
    let q = n / 10;
    let r = q / 10;
    assert(n == 10 * q + n % 10);
    assert(q == 10 * r + q % 10);
    assert(r == n / 100);
    assert(r == 10 * (r / 10) + r % 10);
    assert(r / 10 == n / 1000);
}

#[verifier::spinoff_prover]
proof fn lemma_zero_padded_lt4(n1: nat, n2: nat)
    requires
        n1 < n2 < 10000,
    ensures
        text_lt(zero_padded(n1, 4), zero_padded(n2, 4)),
{
    lemma_zero_padded_digits4(n1);
    lemma_zero_padded_digits4(n2);
    let a = zero_padded(n1, 4);
    let b = zero_padded(n2, 4);
    let (x0, x1, x2, x3) = (n1 / 1000, (n1 / 100) % 10, (n1 / 10) % 10, n1 % 10);
    let (y0, y1, y2, y3) = (n2 / 1000, (n2 / 100) % 10, (n2 / 10) % 10, n2 % 10);
    lemma_four_digits(n1);
    lemma_four_digits(n2);
    if x0 != y0 {
        assert(a.take(0) =~= b.take(0));
        lemma_digit_lt(a, b, 0, x0, y0);
    } else if x1 != y1 {
        assert(a.take(1) =~= b.take(1));
        lemma_digit_lt(a, b, 1, x1, y1);
    } else if x2 != y2 {
        assert(a.take(2) =~= b.take(2));
        lemma_digit_lt(a, b, 2, x2, y2);
    } else {
        assert(a.take(3) =~= b.take(3));
        lemma_digit_lt(a, b, 3, x3, y3);
    }
}

/// Zero-padded numbers of one width are in the order of the numbers.
pub proof fn lemma_zero_padded_lt(n1: nat, n2: nat, width: nat)
    requires
        2 <= width <= 4,
        n1 < n2,
        width == 2 ==> n2 < 100,
        width == 3 ==> n2 < 1000,
        width == 4 ==> n2 < 10000,
    ensures
        text_lt(zero_padded(n1, width), zero_padded(n2, width)),
{
    if width == 2 {
        lemma_zero_padded_lt2(n1, n2);
    } else if width == 3 {
        lemma_zero_padded_lt3(n1, n2);
    } else {
        lemma_zero_padded_lt4(n1, n2);
    }
}

fn digit(d: u64) -> (c: char)
    requires
        d < 10,
    ensures
        c == digit_char(d as nat),
{
    match d {
        0 => '0',
        1 => '1',
        2 => '2',
        3 => '3',
        4 => '4',
        5 => '5',
        6 => '6',
        7 => '7',
        8 => '8',
        _ => '9',
    }
}

/// Appends the decimal digits of `n`.
pub(crate) fn push_decimal(s: &mut String, n: u64)
    ensures
        final(s)@ == old(s)@ + decimal(n as nat),
    decreases n,
{
    if n >= 10 {
        push_decimal(s, n / 10);
    }
    let c = digit(n % 10);
    push_char(s, c);
    assert(s@ =~= old(s)@ + decimal(n as nat));
}

/// Appends `n` in decimal, zero-padded to `width` characters.
pub(crate) fn push_zero_padded(s: &mut String, n: u64, width: usize)
    requires
        width <= 4,
    ensures
        final(s)@ == old(s)@ + zero_padded(n as nat, width as nat),
{
    proof {
        lemma_decimal_len(n as nat);
    }
    let ghost start = s@;
    if width >= 4 && n < 1000 {
        push_char(s, '0');
    }
    if width >= 3 && n < 100 {
        push_char(s, '0');
    }
    if width >= 2 && n < 10 {
        push_char(s, '0');
    }
    let ghost zeros = s@.subrange(start.len() as int, s@.len() as int);
    assert(s@ =~= start + zeros);
    push_decimal(s, n);
    proof {
        let digits = decimal(n as nat);
        if digits.len() >= width {
            assert(zeros.len() == 0);
            assert(s@ =~= start + zero_padded(n as nat, width as nat));
        } else {
            assert(zeros =~= Seq::new((width - digits.len()) as nat, |i: int| '0'));
            assert(s@ =~= start + zero_padded(n as nat, width as nat));
        }
    }
}

} // verus!
