//! Verified decimal formatting: the digit string of a nonnegative number,
//! built by appending digit characters to a `String`.

use vstd::prelude::*;
use vstd::string::StringExecFns;

verus! {

/// The character for one decimal digit.
pub open spec fn digit_char_spec(d: int) -> char {
    if d == 0 {
        '0'
    } else if d == 1 {
        '1'
    } else if d == 2 {
        '2'
    } else if d == 3 {
        '3'
    } else if d == 4 {
        '4'
    } else if d == 5 {
        '5'
    } else if d == 6 {
        '6'
    } else if d == 7 {
        '7'
    } else if d == 8 {
        '8'
    } else {
        '9'
    }
}

/// The decimal digit characters of a nonnegative number, most significant
/// digit first.
pub open spec fn dec_spec(n: int) -> Seq<char>
    decreases n,
{
    if n <= 9 {
        seq![digit_char_spec(n)]
    } else {
        dec_spec(n / 10).push(digit_char_spec(n % 10))
    }
}

/// True for the ten decimal digit characters.
pub open spec fn is_digit_char(c: char) -> bool {
    c == '0' || c == '1' || c == '2' || c == '3' || c == '4' || c == '5' || c == '6' || c == '7'
        || c == '8' || c == '9'
}

/// A decimal string is nonempty and made of digit characters only.
pub proof fn lemma_dec_spec_digits(n: int)
    ensures
        dec_spec(n).len() >= 1,
        forall|i: int| 0 <= i < dec_spec(n).len() ==> is_digit_char(#[trigger] dec_spec(n)[i]),
    decreases n,
{
    if n > 9 {
        lemma_dec_spec_digits(n / 10);
    }
}

/// How many times the character `c` occurs in `s`.
pub open spec fn count_char(s: Seq<char>, c: char) -> int
    decreases s.len(),
{
    if s.len() == 0 {
        0
    } else {
        count_char(s.drop_last(), c) + if s.last() == c {
            1int
        } else {
            0int
        }
    }
}

/// Occurrences in a concatenation are the occurrences in the parts.
pub proof fn lemma_count_char_concat(a: Seq<char>, b: Seq<char>, c: char)
    ensures
        count_char(a + b, c) == count_char(a, c) + count_char(b, c),
    decreases b.len(),
{
    if b.len() == 0 {
        assert(a + b =~= a);
    } else {
        lemma_count_char_concat(a, b.drop_last(), c);
        assert((a + b).drop_last() =~= a + b.drop_last());
        assert((a + b).last() == b.last());
    }
}

/// One occurrence in a one-character string holding it, none otherwise.
pub proof fn lemma_count_char_singleton(c: char, d: char)
    ensures
        count_char(seq![c], d) == if c == d {
            1int
        } else {
            0int
        },
{
    assert(seq![c].drop_last() =~= Seq::<char>::empty());
    assert(count_char(Seq::<char>::empty(), d) == 0);
    assert(seq![c].last() == c);
}

/// A string without the character has no occurrences of it.
pub proof fn lemma_count_char_absent(s: Seq<char>, c: char)
    requires
        forall|i: int| 0 <= i < s.len() ==> s[i] != c,
    ensures
        count_char(s, c) == 0,
    decreases s.len(),
{
    if s.len() > 0 {
        lemma_count_char_absent(s.drop_last(), c);
    }
}

/// A decimal string holds no occurrence of a non-digit character.
pub proof fn lemma_dec_spec_count(n: int, c: char)
    requires
        !is_digit_char(c),
    ensures
        count_char(dec_spec(n), c) == 0,
{
    lemma_dec_spec_digits(n);
    lemma_count_char_absent(dec_spec(n), c);
}

/// Appends one decimal digit character.
fn push_digit(s: &mut String, d: u128)
    requires
        d <= 9,
    ensures
        final(s)@ == old(s)@.push(digit_char_spec(d as int)),
{
    proof {
        reveal_strlit("0");
        reveal_strlit("1");
        reveal_strlit("2");
        reveal_strlit("3");
        reveal_strlit("4");
        reveal_strlit("5");
        reveal_strlit("6");
        reveal_strlit("7");
        reveal_strlit("8");
        reveal_strlit("9");
    }
    let t: &str = if d == 0 {
        "0"
    } else if d == 1 {
        "1"
    } else if d == 2 {
        "2"
    } else if d == 3 {
        "3"
    } else if d == 4 {
        "4"
    } else if d == 5 {
        "5"
    } else if d == 6 {
        "6"
    } else if d == 7 {
        "7"
    } else if d == 8 {
        "8"
    } else {
        "9"
    };
    proof {
        assert(t@ =~= seq![digit_char_spec(d as int)]);
    }
    s.append(t);
    proof {
        assert(s@ =~= old(s)@.push(digit_char_spec(d as int)));
    }
}

/// Appends the decimal digits of `n`.
pub fn push_dec(s: &mut String, n: u128)
    ensures
        final(s)@ == old(s)@ + dec_spec(n as int),
    decreases n,
{
    if n >= 10 {
        push_dec(s, n / 10);
    }
    push_digit(s, n % 10);
    proof {
        if n >= 10 {
            assert(old(s)@ + dec_spec(n as int / 10).push(digit_char_spec(n as int % 10)) =~= (old(
                s,
            )@ + dec_spec(n as int / 10)).push(digit_char_spec(n as int % 10)));
        } else {
            assert(old(s)@ + dec_spec(n as int) =~= old(s)@.push(digit_char_spec(n as int)));
        }
    }
}

} // verus!
