use vstd::prelude::*;

verus! {

/// The character for one decimal digit.
pub open spec fn digit_char(d: nat) -> char {
    if d == 0 {
        '0'
    } else if d == 1 {
        '1'
    } else if d == 2 {
        '2'
    } else if d == 3 {
        '3'
    } else if d == 4 {
        '4'
    } else if d == 5 {
        '5'
    } else if d == 6 {
        '6'
    } else if d == 7 {
        '7'
    } else if d == 8 {
        '8'
    } else {
        '9'
    }
}

/// Decimal rendering of `n`, most significant digit first.
pub open spec fn dec_digits(n: nat) -> Seq<char>
    decreases n,
{
    if n < 10 {
        seq![digit_char(n)]
    } else {
        dec_digits(n / 10).push(digit_char(n % 10))
    }
}

/// Decimal rendering of a sequence of entries, separated by ", ".
pub open spec fn dec_list_body(entries: Seq<usize>) -> Seq<char>
    decreases entries.len(),
{
    if entries.len() == 0 {
        Seq::empty()
    } else if entries.len() == 1 {
        dec_digits(entries[0] as nat)
    } else {
        dec_list_body(entries.drop_last()) + seq![',', ' '] + dec_digits(entries.last() as nat)
    }
}

fn dec_digit(d: usize) -> (c: char)
    requires
        d < 10,
    ensures
        c == digit_char(d as nat),
{
    if d == 0 {
        '0'
    } else if d == 1 {
        '1'
    } else if d == 2 {
        '2'
    } else if d == 3 {
        '3'
    } else if d == 4 {
        '4'
    } else if d == 5 {
        '5'
    } else if d == 6 {
        '6'
    } else if d == 7 {
        '7'
    } else if d == 8 {
        '8'
    } else {
        '9'
    }
}

/// Appends the decimal rendering of `n`.
pub fn push_dec(v: &mut Vec<char>, n: usize)
    ensures
        final(v)@ == old(v)@ + dec_digits(n as nat),
    decreases n,
{
    if n < 10 {
        v.push(dec_digit(n));
        proof {
            assert(v@ =~= old(v)@ + dec_digits(n as nat));
        }
    } else {
        push_dec(v, n / 10);
        v.push(dec_digit(n % 10));
        proof {
            assert(v@ =~= old(v)@ + dec_digits(n as nat));
        }
    }
}

/// Appends the entries of `entries` in decimal, comma separated and bracketed.
pub fn push_dec_list(v: &mut Vec<char>, entries: &Vec<usize>)
    ensures
        final(v)@ == old(v)@ + seq!['['] + dec_list_body(entries@) + seq![']'],
{
    let ghost orig: Seq<char> = v@;
    v.push('[');
    let mut i: usize = 0;
    while i < entries.len()
        invariant
            i <= entries@.len(),
            v@ == orig + seq!['['] + dec_list_body(entries@.subrange(0, i as int)),
        decreases entries@.len() - i,
    {
        if i > 0 {
            v.push(',');
            v.push(' ');
        }
        push_dec(v, entries[i]);
        proof {
            let pre = entries@.subrange(0, i as int);
            let cur = entries@.subrange(0, i + 1);
            assert(cur.drop_last() =~= pre);
            assert(cur.last() == entries@[i as int]);
            if i == 0 {
                assert(dec_list_body(cur) == dec_digits(entries@[0] as nat));
            }
            assert(v@ =~= orig + seq!['['] + dec_list_body(cur));
        }
        i += 1;
    }
    proof {
        assert(entries@.subrange(0, entries@.len() as int) =~= entries@);
    }
    v.push(']');
    proof {
        assert(v@ =~= old(v)@ + seq!['['] + dec_list_body(entries@) + seq![']']);
    }
}

/// Relies on String's FromIterator impl over char: collecting characters
/// yields a string that holds exactly those characters, in order.
#[verifier::external_body]
pub(crate) fn chars_to_string(v: Vec<char>) -> (s: String)
    ensures
        s@ == v@,
{
    v.into_iter().collect()
}

} // verus!
