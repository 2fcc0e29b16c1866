use vstd::prelude::*;

verus! {

/// The character of a decimal digit.
pub open spec fn digit_char(d: nat) -> char {
    if d == 0 { '0' }
    else if d == 1 { '1' }
    else if d == 2 { '2' }
    else if d == 3 { '3' }
    else if d == 4 { '4' }
    else if d == 5 { '5' }
    else if d == 6 { '6' }
    else if d == 7 { '7' }
    else if d == 8 { '8' }
    else { '9' }
}

/// The value of a digit character (any other character reads as zero).
pub open spec fn char_value(c: char) -> nat {
    if c == '1' { 1 }
    else if c == '2' { 2 }
    else if c == '3' { 3 }
    else if c == '4' { 4 }
    else if c == '5' { 5 }
    else if c == '6' { 6 }
    else if c == '7' { 7 }
    else if c == '8' { 8 }
    else if c == '9' { 9 }
    else { 0 }
}

/// Decimal text of `n`, most significant digit first, with no leading zeros.
pub open spec fn dec(n: nat) -> Seq<char>
    decreases n,
{
    if n < 10 {
        seq![digit_char(n)]
    } else {
        dec(n / 10).push(digit_char(n % 10))
    }
}

/// Decimal text of `n`, left-padded with zeros to at least `width` characters.
pub open spec fn dec_padded(n: nat, width: nat) -> Seq<char> {
    let d = dec(n);
    if d.len() >= width {
        d
    } else {
        Seq::new((width - d.len()) as nat, |i: int| '0') + d
    }
}

/// The number that a string of decimal digits denotes.
pub open spec fn read_dec(s: Seq<char>) -> nat
    decreases s.len(),
{
    if s.len() == 0 {
        0
    } else {
        read_dec(s.drop_last()) * 10 + char_value(s.last())
    }
}

/// Reading back the decimal text of a number gives that number.
pub proof fn lemma_read_dec(n: nat)
    ensures
        read_dec(dec(n)) == n,
    decreases n,
{
    lemma_digit_value(n % 10);
    if n < 10 {
        assert(dec(n).drop_last() =~= Seq::<char>::empty());
        assert(read_dec(Seq::<char>::empty()) == 0);
        assert(dec(n).last() == digit_char(n));
    } else {
        lemma_read_dec(n / 10);
        assert(dec(n).drop_last() =~= dec(n / 10));
        assert(dec(n).last() == digit_char(n % 10));
        assert(n == (n / 10) * 10 + n % 10);
    }
}

proof fn lemma_digit_value(d: nat)
    requires
        d < 10,
    ensures
        char_value(digit_char(d)) == d,
{
}

fn digit_str(d: u64) -> (r: &'static str)
    requires
        d < 10,
    ensures
        r@ == seq![digit_char(d as nat)],
{
    if d == 0 { proof { reveal_strlit("0"); } "0" }
    else if d == 1 { proof { reveal_strlit("1"); } "1" }
    else if d == 2 { proof { reveal_strlit("2"); } "2" }
    else if d == 3 { proof { reveal_strlit("3"); } "3" }
    else if d == 4 { proof { reveal_strlit("4"); } "4" }
    else if d == 5 { proof { reveal_strlit("5"); } "5" }
    else if d == 6 { proof { reveal_strlit("6"); } "6" }
    else if d == 7 { proof { reveal_strlit("7"); } "7" }
    else if d == 8 { proof { reveal_strlit("8"); } "8" }
    else { proof { reveal_strlit("9"); } "9" }
}

/// Decimal text of an unsigned integer.
pub fn decimal(n: u128) -> (r: String)
    ensures
        r@ == dec(n as nat),
    decreases n,
{
    if n < 10 {
        String::from_str(digit_str(n as u64))
    } else {
        let mut r = decimal(n / 10);
        r.append(digit_str((n % 10) as u64));
        r
    }
}

/// Decimal text of an unsigned integer, zero-padded on the left to `width`.
pub fn decimal_padded(n: u64, width: usize) -> (r: String)
    ensures
        r@ == dec_padded(n as nat, width as nat),
{
    let digits = decimal(n as u128);
    let len = digits.as_str().unicode_len();
    if len >= width {
        return digits;
    }
    let mut r = String::new();
    let mut i: usize = 0;
    proof { reveal_strlit("0"); }
    while i < width - len
        invariant
            len == dec(n as nat).len(),
            len < width,
            i <= width - len,
            r@ =~= Seq::new(i as nat, |k: int| '0'),
        decreases width - len - i,
    {
        proof { reveal_strlit("0"); }
        r.append("0");
        i = i + 1;
    }
    r.append(digits.as_str());
    r
}

} // verus!
