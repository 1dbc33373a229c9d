//! Numerals: numbers written out in decimal and hexadecimal.
use vstd::arithmetic::div_mod;
use vstd::prelude::*;

use crate::text::text_of;

verus! {

/// The digit that stands for `d`, below sixteen.
pub open spec fn digit(d: int) -> char {
    seq!['0', '1', '2', '3', '4', '5', '6', '7', '8', '9', 'a', 'b', 'c', 'd', 'e', 'f'][d]
}

/// What a digit stands for.
pub open spec fn digit_value(c: char) -> int {
    if '0' <= c <= '9' {
        c as int - '0' as int
    } else {
        c as int - 'a' as int + 10
    }
}

/// `n` written in `base`, without leading zeros.
pub open spec fn numeral(n: nat, base: nat) -> Seq<char>
    recommends
        2 <= base <= 16,
    decreases n,
    when 2 <= base
    via numeral_decreases
{
    if n < base {
        seq![digit(n as int)]
    } else {
        numeral(n / base, base).push(digit((n % base) as int))
    }
}

#[via_fn]
proof fn numeral_decreases(n: nat, base: nat) {
    if n >= base {
        div_mod::lemma_div_decreases(n as int, base as int);
    }
}

/// `s` behind as many zeros as bring it to `width` characters.
pub open spec fn zero_padded(s: Seq<char>, width: nat) -> Seq<char> {
    if s.len() < width {
        Seq::new((width - s.len()) as nat, |i: int| '0') + s
    } else {
        s
    }
}

/// The number that a row of digits stands for.
pub open spec fn numeral_value(s: Seq<char>, base: nat) -> int
    decreases s.len(),
{
    if s.len() == 0 {
        0
    } else {
        numeral_value(s.drop_last(), base) * base + digit_value(s.last())
    }
}

/// A numeral's value is the number it was written for, and it holds digits only.
pub proof fn lemma_numeral_value(n: nat, base: nat)
    requires
        2 <= base <= 16,
    ensures
        numeral_value(numeral(n, base), base) == n,
        numeral(n, base).len() > 0,
        forall|i: int|
            0 <= i < numeral(n, base).len() ==> {
                let c = #[trigger] numeral(n, base)[i];
                ('0' <= c <= '9') || ('a' <= c <= 'f')
            },
    decreases n,
{
    let s = numeral(n, base);
    if n < base {
        assert(s.drop_last() =~= Seq::<char>::empty());
        assert(digit_value(digit(n as int)) == n);
        assert(numeral_value(s.drop_last(), base) * base == 0) by (nonlinear_arith)
            requires
                numeral_value(s.drop_last(), base) == 0,
        ;
    } else {
        div_mod::lemma_div_decreases(n as int, base as int);
        div_mod::lemma_mod_bound(n as int, base as int);
        lemma_numeral_value(n / base, base);
        assert(s.drop_last() =~= numeral(n / base, base));
        assert(digit_value(digit((n % base) as int)) == n % base);
        div_mod::lemma_fundamental_div_mod(n as int, base as int);
        assert((n / base) * base == base * (n / base)) by (nonlinear_arith);
    }
}

/// Leading zeros do not change a numeral's value.
pub proof fn lemma_padding_value(zeros: nat, s: Seq<char>, base: nat)
    ensures
        numeral_value(Seq::new(zeros, |i: int| '0') + s, base) == numeral_value(s, base),
    decreases zeros + s.len(),
{
    let z = Seq::new(zeros, |i: int| '0');
    let whole = z + s;
    if s.len() > 0 {
        lemma_padding_value(zeros, s.drop_last(), base);
        assert(whole.drop_last() =~= z + s.drop_last());
    } else if zeros > 0 {
        let fewer = Seq::new((zeros - 1) as nat, |i: int| '0');
        lemma_padding_value((zeros - 1) as nat, s, base);
        assert(whole.drop_last() =~= fewer + s);
        assert(numeral_value(whole.drop_last(), base) * base == 0) by (nonlinear_arith)
            requires
                numeral_value(whole.drop_last(), base) == 0,
        ;
    } else {
        assert(whole =~= s);
    }
}

/// Different numbers are written differently.
pub proof fn lemma_numeral_injective(m: nat, n: nat, base: nat)
    requires
        2 <= base <= 16,
        numeral(m, base) == numeral(n, base),
    ensures
        m == n,
{
    lemma_numeral_value(m, base);
    lemma_numeral_value(n, base);
}

/// Different numbers are written differently, with leading zeros too.
pub proof fn lemma_padded_injective(m: nat, n: nat, base: nat, width: nat)
    requires
        2 <= base <= 16,
        zero_padded(numeral(m, base), width) == zero_padded(numeral(n, base), width),
    ensures
        m == n,
{
    lemma_numeral_value(m, base);
    lemma_numeral_value(n, base);
    lemma_padded_value(numeral(m, base), width, base);
    lemma_padded_value(numeral(n, base), width, base);
}

proof fn lemma_padded_value(s: Seq<char>, width: nat, base: nat)
    ensures
        numeral_value(zero_padded(s, width), base) == numeral_value(s, base),
{
    if s.len() < width {
        lemma_padding_value((width - s.len()) as nat, s, base);
    }
}

/// The digit that stands for `d`.
fn digit_char(d: u128) -> (c: char)
    requires
        d < 16,
    ensures
        c == digit(d as int),
{
    if d == 0 {
        '0'
    } else if d == 1 {
        '1'
    } else if d == 2 {
        '2'
    } else if d == 3 {
        '3'
    } else if d == 4 {
        '4'
    } else if d == 5 {
        '5'
    } else if d == 6 {
        '6'
    } else if d == 7 {
        '7'
    } else if d == 8 {
        '8'
    } else if d == 9 {
        '9'
    } else if d == 10 {
        'a'
    } else if d == 11 {
        'b'
    } else if d == 12 {
        'c'
    } else if d == 13 {
        'd'
    } else if d == 14 {
        'e'
    } else {
        'f'
    }
}

/// `n` written in `base`, behind zeros up to `width` characters.
fn write_numeral(n: u128, base: u128, width: usize) -> (out: String)
    requires
        2 <= base <= 16,
    ensures
        out@ == zero_padded(numeral(n as nat, base as nat), width as nat),
{
    let mut reversed: Vec<char> = Vec::new();
    let mut rest: u128 = n;
    let ghost whole = numeral(n as nat, base as nat);
    assert(whole =~= whole + reversed@.reverse());
    while rest >= base
        invariant
            2 <= base <= 16,
            whole == numeral(rest as nat, base as nat) + reversed@.reverse(),
        decreases rest,
    {
        let d: u128 = rest % base;
        proof {
            div_mod::lemma_div_decreases(rest as int, base as int);
            div_mod::lemma_mod_bound(rest as int, base as int);
            assert(numeral(rest as nat, base as nat) == numeral(
                rest as nat / base as nat,
                base as nat,
            ).push(digit(d as int)));
        }
        let ghost before = reversed@.reverse();
        reversed.push(digit_char(d));
        assert(reversed@.reverse() =~= seq![digit(d as int)] + before);
        assert(numeral(rest as nat, base as nat) + before =~= numeral(
            rest as nat / base as nat,
            base as nat,
        ) + reversed@.reverse());
        rest = rest / base;
    }
    let ghost before = reversed@.reverse();
    reversed.push(digit_char(rest));
    assert(reversed@.reverse() =~= seq![digit(rest as int)] + before);
    assert(whole == reversed@.reverse());
    let ghost written = reversed@;
    while reversed.len() < width
        invariant
            reversed@ == written + Seq::new((reversed@.len() - written.len()) as nat, |i: int| '0'),
            written.len() <= reversed@.len(),
            reversed@.len() <= width || reversed@.len() == written.len(),
        decreases width - reversed@.len(),
    {
        let ghost zeros = (reversed@.len() - written.len()) as nat;
        reversed.push('0');
        assert(Seq::new(zeros + 1, |i: int| '0') =~= Seq::new(zeros, |i: int| '0').push('0'));
    }
    let ghost expected = zero_padded(whole, width as nat);
    let mut ordered: Vec<char> = Vec::new();
    let mut left: usize = reversed.len();
    while left > 0
        invariant
            left <= reversed@.len(),
            ordered@ == reversed@.reverse().take(reversed@.len() - left),
        decreases left,
    {
        left = left - 1;
        ordered.push(reversed[left]);
        assert(ordered@ =~= reversed@.reverse().take(reversed@.len() - left));
    }
    assert(ordered@ =~= reversed@.reverse());
    assert(ordered@ =~= expected);
    let out = text_of(&ordered, 0, ordered.len());
    assert(out@ =~= ordered@);
    out
}

/// `n` in decimal.
pub fn decimal(n: u128) -> (out: String)
    ensures
        out@ == numeral(n as nat, 10),
{
    write_numeral(n, 10, 0)
}

/// `n` in decimal, behind zeros up to `width` characters.
pub fn padded_decimal(n: u128, width: usize) -> (out: String)
    ensures
        out@ == zero_padded(numeral(n as nat, 10), width as nat),
{
    write_numeral(n, 10, width)
}

/// `n` in hexadecimal, with lower-case letters.
pub fn lower_hex(n: u64) -> (out: String)
    ensures
        out@ == numeral(n as nat, 16),
{
    write_numeral(n as u128, 16, 0)
}

/// A numeral of more than one digit does not begin with a zero.
pub proof fn lemma_numeral_has_no_leading_zero(n: nat, base: nat)
    requires
        2 <= base <= 16,
    ensures
        numeral(n, base).len() > 1 ==> numeral(n, base)[0] != '0',
        n < base ==> numeral(n, base).len() == 1,
    decreases n,
{
    if n >= base {
        let head = n / base;
        div_mod::lemma_div_decreases(n as int, base as int);
        div_mod::lemma_mod_bound(n as int, base as int);
        lemma_numeral_has_no_leading_zero(head, base);
        lemma_numeral_value(head, base);
        assert(head >= 1) by {
            div_mod::lemma_div_is_ordered(base as int, n as int, base as int);
            div_mod::lemma_div_by_self(base as int);
        }
        assert(numeral(n, base)[0] == numeral(head, base)[0]);
        if head < base {
            assert(numeral(head, base) =~= seq![digit(head as int)]);
            assert(digit_value(digit(head as int)) == head);
            assert(digit_value('0') == 0);
        } else {
            lemma_numeral_value(head / base, base);
            assert(numeral(head, base).len() == numeral(head / base, base).len() + 1);
        }
    }
}

/// Padding puts zeros before a text until it is as wide as asked, and changes nothing else.
pub proof fn lemma_padding_only_adds_zeros(s: Seq<char>, width: nat)
    ensures
        ({
            let padded = zero_padded(s, width);
            &&& padded.len() == if s.len() < width {
                width
            } else {
                s.len()
            }
            &&& padded.skip(padded.len() - s.len()) == s
            &&& forall|i: int| 0 <= i < padded.len() - s.len() ==> #[trigger] padded[i] == '0'
        }),
{
    let padded = zero_padded(s, width);
    assert(padded.skip(padded.len() - s.len()) =~= s);
}

} // verus!
