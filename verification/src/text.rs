//! Strings as sequences of characters: comparing them and writing numbers
//! into them.

use vstd::prelude::*;

verus! {

/// `String::push` appends one character to the string.
pub assume_specification[ String::push ](text: &mut String, c: char)
    ensures
        final(text)@ == old(text)@.push(c),
;

/// Whether two strings hold the same characters.
pub fn same_text(a: &str, b: &str) -> (same: bool)
    ensures
        same == (a@ == b@),
{
    a.to_owned() == b.to_owned()
}

/// The character of one decimal digit.
pub open spec fn digit(d: nat) -> char
    recommends
        d < 10,
{
    (48 + d) as char
}

/// A number in decimal notation, without leading zeros.
pub open spec fn decimal(n: nat) -> Seq<char>
    decreases n,
{
    if n < 10 {
        seq![digit(n)]
    } else {
        decimal(n / 10).push(digit(n % 10))
    }
}

/// Appends `n` in decimal notation to `text`.
pub fn push_number(text: &mut String, n: u64)
    ensures
        final(text)@ == old(text)@ + decimal(n as nat),
    decreases n,
{
    if n >= 10 {
        push_number(text, n / 10);
    }
    text.push((48u8 + (n % 10) as u8) as char);
    assert(text@ =~= old(text)@ + decimal(n as nat));
}

/// A whole number in decimal notation, with a minus sign in front of a
/// negative one.
pub open spec fn number_text(n: int) -> Seq<char> {
    if n < 0 {
        seq!['-'] + decimal((-n) as nat)
    } else {
        decimal(n as nat)
    }
}

/// The first `upto` numbers of a list, with a comma and a space between
/// one and the next.
pub open spec fn numbers_text(list: Seq<i64>, upto: nat) -> Seq<char>
    decreases upto,
{
    if upto == 0 {
        Seq::empty()
    } else if upto == 1 {
        number_text(list[0] as int)
    } else {
        numbers_text(list, (upto - 1) as nat) + seq![',', ' '] + number_text(list[upto - 1] as int)
    }
}

/// A list of numbers in square brackets, with a comma and a space between
/// one number and the next.
pub open spec fn list_text(list: Seq<i64>) -> Seq<char> {
    seq!['['] + numbers_text(list, list.len()) + seq![']']
}

/// Appends a list of numbers to `text`: in square brackets, with a comma
/// and a space between one number and the next.
pub fn push_list(text: &mut String, list: &Vec<i64>)
    ensures
        final(text)@ == old(text)@ + list_text(list@),
{
    text.push('[');
    let ghost start = text@;
    let mut i: usize = 0;
    while i < list.len()
        invariant
            i <= list@.len(),
            start == old(text)@.push('['),
            text@ == start + numbers_text(list@, i as nat),
        decreases list@.len() - i,
    {
        if i > 0 {
            text.push(',');
            text.push(' ');
        }
        let ghost before = text@;
        let n: i64 = list[i];
        if n < 0 {
            text.push('-');
            push_number(text, (-(n as i128)) as u64);
        } else {
            push_number(text, n as u64);
        }
        assert(text@ =~= before + number_text(n as int));
        assert(text@ =~= start + numbers_text(list@, (i + 1) as nat));
        i += 1;
    }
    text.push(']');
    assert(text@ =~= old(text)@ + list_text(list@));
}

/// The characters of a string, in a vector.
pub fn chars_of(text: &str) -> (chars: Vec<char>)
    ensures
        chars@ == text@,
{
    let n: usize = text.unicode_len();
    let mut chars: Vec<char> = Vec::new();
    let mut i: usize = 0;
    while i < n
        invariant
            i <= n,
            n == text@.len(),
            chars@ == text@.take(i as int),
        decreases n - i,
    {
        chars.push(text.get_char(i));
        assert(text@.take(i + 1) =~= text@.take(i as int).push(text@[i as int]));
        i += 1;
    }
    assert(text@.take(n as int) =~= text@);
    chars
}

} // verus!
