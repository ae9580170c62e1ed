//! Text helpers for the samples: decimal digits, splitting on a separator,
//! reversal and upper case.
use vstd::prelude::*;

verus! {

/// Relies on String::push: the character is added at the end.
#[verifier::external_body]
pub(crate) fn push_char(s: &mut String, c: char)
    ensures
        final(s)@ == old(s)@.push(c),
{
    s.push(c)
}

/// What str::to_uppercase makes of a text.
pub uninterp spec fn upper_of(s: Seq<char>) -> Seq<char>;

/// Relies on str::to_uppercase: the result depends on the characters alone, and
/// an empty text stays empty.
#[verifier::external_body]
pub(crate) fn uppercase(s: &str) -> (r: String)
    ensures
        r@ == upper_of(s@),
        s@.len() == 0 ==> r@.len() == 0,
{
    s.to_uppercase()
}

/// The digit character for `d`, which is below ten.
pub open spec fn digit_char(d: nat) -> char {
    if d == 0 {
        '0'
    } else if d == 1 {
        '1'
    } else if d == 2 {
        '2'
    } else if d == 3 {
        '3'
    } else if d == 4 {
        '4'
    } else if d == 5 {
        '5'
    } else if d == 6 {
        '6'
    } else if d == 7 {
        '7'
    } else if d == 8 {
        '8'
    } else {
        '9'
    }
}

/// The decimal notation of `n`, without leading zeros.
pub open spec fn decimal(n: nat) -> Seq<char>
    decreases n,
{
    if n < 10 {
        seq![digit_char(n)]
    } else {
        decimal(n / 10).push(digit_char(n % 10))
    }
}

fn digit(d: u128) -> (c: char)
    requires
        d < 10,
    ensures
        c == digit_char(d as nat),
{
    if d == 0 {
        '0'
    } else if d == 1 {
        '1'
    } else if d == 2 {
        '2'
    } else if d == 3 {
        '3'
    } else if d == 4 {
        '4'
    } else if d == 5 {
        '5'
    } else if d == 6 {
        '6'
    } else if d == 7 {
        '7'
    } else if d == 8 {
        '8'
    } else {
        '9'
    }
}

/// Writes the decimal notation of `n` at the end of `s`.
pub fn push_decimal(s: &mut String, n: u128)
    ensures
        final(s)@ == old(s)@ + decimal(n as nat),
    decreases n,
{
    if n >= 10 {
        push_decimal(s, n / 10);
    }
    push_char(s, digit(n % 10));
}

/// The pieces of `s` between occurrences of `sep`, in order; there is always
/// one more piece than there are separators.
pub open spec fn split_on(s: Seq<char>, sep: char) -> Seq<Seq<char>>
    decreases s.len(),
{
    if s.len() == 0 {
        seq![Seq::<char>::empty()]
    } else {
        let pieces = split_on(s.drop_last(), sep);
        if s.last() == sep {
            pieces.push(Seq::<char>::empty())
        } else {
            pieces.update(pieces.len() - 1, pieces.last().push(s.last()))
        }
    }
}

/// Splitting always gives at least one piece.
pub proof fn lemma_split_on_nonempty(s: Seq<char>, sep: char)
    ensures
        split_on(s, sep).len() >= 1,
    decreases s.len(),
{
    if s.len() > 0 {
        lemma_split_on_nonempty(s.drop_last(), sep);
    }
}

/// The views of a sequence of strings.
pub open spec fn views(v: Seq<String>) -> Seq<Seq<char>> {
    v.map_values(|w: String| w@)
}

/// Splits `s` at each occurrence of `sep`.
pub fn split_char(s: &str, sep: char) -> (r: Vec<String>)
    ensures
        views(r@) == split_on(s@, sep),
{
    let mut pieces: Vec<String> = Vec::new();
    let mut current = String::new();
    let ghost mut seen: Seq<char> = Seq::empty();
    for c in it: s.chars()
        invariant
            it.seq() == s@,
            seen == s@.take(it.index() as int),
            views(pieces@).push(current@) == split_on(seen, sep),
    {
        proof {
            lemma_split_on_nonempty(seen, sep);
            assert(seen.push(c).drop_last() == seen);
        }
        let ghost old_pieces = pieces@;
        let ghost old_current = current@;
        if c == sep {
            pieces.push(current);
            current = String::new();
            proof {
                assert(views(pieces@) == views(old_pieces).push(old_current));
            }
        } else {
            push_char(&mut current, c);
        }
        proof {
            seen = seen.push(c);
            assert(seen == s@.take(it.index() as int + 1));
        }
    }
    pieces.push(current);
    proof {
        assert(seen == s@);
    }
    pieces
}

} // verus!
