//! The name of the file that a chunk is saved in.

use vstd::prelude::*;

verus! {

/// The character of a decimal digit.
pub open spec fn digit_char(d: int) -> char {
    if d == 0 {
        '0'
    } else if d == 1 {
        '1'
    } else if d == 2 {
        '2'
    } else if d == 3 {
        '3'
    } else if d == 4 {
        '4'
    } else if d == 5 {
        '5'
    } else if d == 6 {
        '6'
    } else if d == 7 {
        '7'
    } else if d == 8 {
        '8'
    } else {
        '9'
    }
}

/// The decimal digits of a natural number, without leading zeros.
pub open spec fn digits(n: nat) -> Seq<char>
    decreases n,
{
    if n < 10 {
        seq![digit_char(n as int)]
    } else {
        digits(n / 10).push(digit_char(n as int % 10))
    }
}

/// An integer written in decimal, with a minus sign where it is negative.
pub open spec fn decimal(v: int) -> Seq<char> {
    if v < 0 {
        seq!['-'] + digits((-v) as nat)
    } else {
        digits(v as nat)
    }
}

/// The name of the save file of the chunk `key`: its three coordinates in
/// decimal, joined by underscores, with the extension `dat`.
pub open spec fn file_name(key: (int, int, int)) -> Seq<char> {
    decimal(key.0) + seq!['_'] + decimal(key.1) + seq!['_'] + decimal(key.2) + seq![
        '.',
        'd',
        'a',
        't',
    ]
}

/// `String::push`: appends one character.
#[verifier::external_body]
fn push_char(s: &mut String, c: char)
    ensures
        final(s)@ == old(s)@.push(c),
{
    s.push(c)
}

/// Appends the decimal digits of `n`.
fn push_digits(s: &mut String, n: u32)
    ensures
        final(s)@ == old(s)@ + digits(n as nat),
    decreases n,
{
    if n >= 10 {
        push_digits(s, n / 10);
    }
    let d = n % 10;
    let c = if d == 0 {
        '0'
    } else if d == 1 {
        '1'
    } else if d == 2 {
        '2'
    } else if d == 3 {
        '3'
    } else if d == 4 {
        '4'
    } else if d == 5 {
        '5'
    } else if d == 6 {
        '6'
    } else if d == 7 {
        '7'
    } else if d == 8 {
        '8'
    } else {
        '9'
    };
    push_char(s, c);
    assert(s@ =~= old(s)@ + digits(n as nat));
}

/// Appends `v` in decimal.
fn push_decimal(s: &mut String, v: i32)
    ensures
        final(s)@ == old(s)@ + decimal(v as int),
{
    if v < 0 {
        push_char(s, '-');
        push_digits(s, (-(v as i64)) as u32);
        assert(s@ =~= old(s)@ + decimal(v as int));
    } else {
        push_digits(s, v as u32);
    }
}

/// The name of the save file of the chunk at `chunk_pos`.
pub fn chunk_file_name(chunk_pos: &[i32; 3]) -> (name: String)
    ensures
        name@ == file_name(crate::table::pos_key(*chunk_pos)),
{
    let mut name = String::new();
    push_decimal(&mut name, chunk_pos[0]);
    push_char(&mut name, '_');
    push_decimal(&mut name, chunk_pos[1]);
    push_char(&mut name, '_');
    push_decimal(&mut name, chunk_pos[2]);
    push_char(&mut name, '.');
    push_char(&mut name, 'd');
    push_char(&mut name, 'a');
    push_char(&mut name, 't');
    assert(name@ =~= file_name(crate::table::pos_key(*chunk_pos)));
    name
}

/// The digit that a character stands for; -1 where it is no digit.
pub open spec fn digit_value(c: char) -> int {
    if c == '0' {
        0
    } else if c == '1' {
        1
    } else if c == '2' {
        2
    } else if c == '3' {
        3
    } else if c == '4' {
        4
    } else if c == '5' {
        5
    } else if c == '6' {
        6
    } else if c == '7' {
        7
    } else if c == '8' {
        8
    } else if c == '9' {
        9
    } else {
        -1
    }
}

/// The number that a row of digits stands for.
pub open spec fn number(s: Seq<char>) -> int
    decreases s.len(),
{
    if s.len() == 0 {
        0
    } else {
        number(s.drop_last()) * 10 + digit_value(s.last())
    }
}

/// The digits of a number are digits, at least one, and stand for the
/// number.
pub proof fn lemma_digits(n: nat)
    ensures
        digits(n).len() >= 1,
        forall|i: int| 0 <= i < digits(n).len() ==> digit_value(#[trigger] digits(n)[i]) >= 0,
        number(digits(n)) == n,
    decreases n,
{
    if n < 10 {
        assert(digits(n).drop_last() =~= Seq::<char>::empty());
        assert(number(digits(n).drop_last()) == 0);
    } else {
        lemma_digits(n / 10);
        assert(digits(n).drop_last() =~= digits(n / 10));
    }
}

/// An integer's decimal form holds digits and at most a leading minus
/// sign, and no two integers have the same.
pub proof fn lemma_decimal(u: int, v: int)
    ensures
        decimal(u).len() >= 1,
        forall|i: int| 0 <= i < decimal(u).len() ==> #[trigger] decimal(u)[i] != '_',
        decimal(u) == decimal(v) ==> u == v,
{
    if u < 0 {
        lemma_digits((-u) as nat);
    } else {
        lemma_digits(u as nat);
    }
    if v < 0 {
        lemma_digits((-v) as nat);
    } else {
        lemma_digits(v as nat);
    }
    assert forall|i: int| 0 <= i < decimal(u).len() implies #[trigger] decimal(u)[i] != '_' by {
        if u < 0 && i > 0 {
            assert(decimal(u)[i] == digits((-u) as nat)[i - 1]);
        }
    }
    if decimal(u) == decimal(v) {
        if u < 0 {
            assert(decimal(u)[0] == '-');
            if v >= 0 {
                assert(digit_value(digits(v as nat)[0]) >= 0);
            } else {
                assert(decimal(u).subrange(1, decimal(u).len() as int) =~= digits((-u) as nat));
                assert(decimal(v).subrange(1, decimal(v).len() as int) =~= digits((-v) as nat));
            }
        } else if v < 0 {
            assert(decimal(v)[0] == '-');
            assert(digit_value(digits(u as nat)[0]) >= 0);
        }
    }
}

/// A text is cut at its first underscore in one way only.
pub proof fn lemma_cut(s1: Seq<char>, t1: Seq<char>, s2: Seq<char>, t2: Seq<char>)
    requires
        s1 + seq!['_'] + t1 == s2 + seq!['_'] + t2,
        forall|i: int| 0 <= i < s1.len() ==> #[trigger] s1[i] != '_',
        forall|i: int| 0 <= i < s2.len() ==> #[trigger] s2[i] != '_',
    ensures
        s1 == s2,
        t1 == t2,
{
    let a = s1 + seq!['_'] + t1;
    let b = s2 + seq!['_'] + t2;
    assert(a[s1.len() as int] == '_');
    assert(b[s2.len() as int] == '_');
    if s1.len() < s2.len() {
        assert(b[s1.len() as int] == s2[s1.len() as int]);
    }
    if s2.len() < s1.len() {
        assert(a[s2.len() as int] == s1[s2.len() as int]);
    }
    assert(s1 =~= a.subrange(0, s1.len() as int));
    assert(s2 =~= b.subrange(0, s2.len() as int));
    assert(t1 =~= a.subrange(s1.len() as int + 1, a.len() as int));
    assert(t2 =~= b.subrange(s2.len() as int + 1, b.len() as int));
}

/// Each chunk has a save file of its own: two chunks whose files have the
/// same name are the same chunk.
pub proof fn lemma_file_names_differ(a: (int, int, int), b: (int, int, int))
    requires
        file_name(a) == file_name(b),
    ensures
        a == b,
{
    let ext = seq!['.', 'd', 'a', 't'];
    let tail_a = decimal(a.2) + ext;
    let tail_b = decimal(b.2) + ext;
    let rest_a = decimal(a.1) + seq!['_'] + tail_a;
    let rest_b = decimal(b.1) + seq!['_'] + tail_b;
    lemma_decimal(a.0, b.0);
    lemma_decimal(b.0, a.0);
    lemma_decimal(a.1, b.1);
    lemma_decimal(b.1, a.1);
    lemma_decimal(a.2, b.2);
    assert(file_name(a) =~= decimal(a.0) + seq!['_'] + rest_a);
    assert(file_name(b) =~= decimal(b.0) + seq!['_'] + rest_b);
    lemma_cut(decimal(a.0), rest_a, decimal(b.0), rest_b);
    lemma_cut(decimal(a.1), tail_a, decimal(b.1), tail_b);
    assert(tail_a.len() == tail_b.len());
    assert(decimal(a.2) =~= tail_a.subrange(0, decimal(a.2).len() as int));
    assert(decimal(b.2) =~= tail_b.subrange(0, decimal(b.2).len() as int));
}

} // verus!
