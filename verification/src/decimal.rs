//! Decimal text of unsigned integers, as `format!("{:0width$}")` writes it.
use vstd::prelude::*;

verus! {

/// The ASCII digit for `d < 10`.
pub open spec fn digit(d: nat) -> char {
    (48 + d) as char
}

/// The shortest decimal text of `n`.
pub open spec fn dec(n: nat) -> Seq<char>
    decreases n,
{
    if n < 10 {
        seq![digit(n)]
    } else {
        dec(n / 10).push(digit(n % 10))
    }
}

/// `s` with zeros in front up to `width` characters.
pub open spec fn zero_pad(s: Seq<char>, width: nat) -> Seq<char> {
    if s.len() >= width {
        s
    } else {
        Seq::new((width - s.len()) as nat, |i: int| '0') + s
    }
}

/// Calls `String::push` of std, which appends one character.
#[verifier::external_body]
pub(crate) fn string_push(s: &mut String, c: char)
    ensures
        final(s)@ == old(s)@.push(c),
{
    s.push(c);
}

/// Appends the characters of `t`.
pub fn string_push_str(s: &mut String, t: &str)
    ensures
        final(s)@ == old(s)@ + t@,
{
    s.append(t);
}

/// The decimal digits of `n`, most significant first.
pub fn decimal_digits(n: u64) -> (r: Vec<char>)
    ensures
        r@ == dec(n as nat),
{
    // Collect digits least significant first, then reverse.
    let mut rev: Vec<char> = Vec::new();
    let mut m: u64 = n;
    while m >= 10
        invariant
            dec(n as nat) == dec(m as nat) + rev@.reverse(),
        decreases m,
    {
        let d: u64 = m % 10;
        let c: char = char_of_digit(d as u8);
        proof {
            assert(dec(m as nat) == dec((m / 10) as nat).push(digit((m % 10) as nat)));
        }
        let ghost old_rev = rev@;
        rev.push(c);
        assert(rev@.reverse() =~= seq![c] + old_rev.reverse());
        assert(dec(m as nat) + old_rev.reverse() =~= dec((m / 10) as nat) + rev@.reverse());
        m = m / 10;
    }
    let c: char = char_of_digit(m as u8);
    let ghost old_rev = rev@;
    rev.push(c);
    assert(rev@.reverse() =~= seq![c] + old_rev.reverse());
    assert(dec(m as nat) =~= seq![c]);
    // Reverse.
    let mut r: Vec<char> = Vec::new();
    let mut i: usize = rev.len();
    while i > 0
        invariant
            i <= rev@.len(),
            r@ == rev@.subrange(i as int, rev@.len() as int).reverse(),
        decreases i,
    {
        i = i - 1;
        let ghost before = r@;
        r.push(rev[i]);
        assert(r@ =~= rev@.subrange(i as int, rev@.len() as int).reverse());
    }
    assert(rev@.subrange(0, rev@.len() as int) =~= rev@);
    r
}

fn char_of_digit(d: u8) -> (c: char)
    requires
        d < 10,
    ensures
        c == digit(d as nat),
{
    if d == 0 {
        '0'
    } else if d == 1 {
        '1'
    } else if d == 2 {
        '2'
    } else if d == 3 {
        '3'
    } else if d == 4 {
        '4'
    } else if d == 5 {
        '5'
    } else if d == 6 {
        '6'
    } else if d == 7 {
        '7'
    } else if d == 8 {
        '8'
    } else {
        '9'
    }
}

/// Appends the decimal text of `n`, padded with zeros to `width` characters.
pub fn push_decimal(s: &mut String, n: u64, width: usize)
    ensures
        final(s)@ == old(s)@ + zero_pad(dec(n as nat), width as nat),
{
    let digits = decimal_digits(n);
    let ghost s0 = s@;
    let mut pad: usize = 0;
    if digits.len() < width {
        let count: usize = width - digits.len();
        while pad < count
            invariant
                pad <= count,
                s@ == s0 + Seq::new(pad as nat, |i: int| '0'),
            decreases count - pad,
        {
            string_push(s, '0');
            pad = pad + 1;
            assert(s@ =~= s0 + Seq::new(pad as nat, |i: int| '0'));
        }
    }
    let ghost s1 = s@;
    let mut i: usize = 0;
    while i < digits.len()
        invariant
            i <= digits@.len(),
            s@ == s1 + digits@.subrange(0, i as int),
        decreases digits@.len() - i,
    {
        string_push(s, digits[i]);
        i = i + 1;
        assert(s@ =~= s1 + digits@.subrange(0, i as int));
    }
    assert(digits@.subrange(0, digits@.len() as int) =~= digits@);
    assert(s@ =~= old(s)@ + zero_pad(dec(n as nat), width as nat));
}

} // verus!
