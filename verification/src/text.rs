//! Text building blocks: joining with a separator and decimal rendering.

use itertools::Itertools;
use vstd::prelude::*;

verus! {

/// The pieces of `parts`, in order, with `sep` between each neighbouring pair.
pub open spec fn joined(parts: Seq<Seq<char>>, sep: Seq<char>) -> Seq<char>
    decreases parts.len(),
{
    if parts.len() == 0 {
        Seq::empty()
    } else if parts.len() == 1 {
        parts[0]
    } else {
        joined(parts.drop_last(), sep) + sep + parts.last()
    }
}

/// The character sequences of a list of strings.
pub open spec fn views(parts: Seq<String>) -> Seq<Seq<char>> {
    Seq::new(parts.len(), |i: int| parts[i]@)
}

/// The character sequences of a list of string slices.
pub open spec fn str_views(parts: Seq<&str>) -> Seq<Seq<char>> {
    Seq::new(parts.len(), |i: int| parts[i]@)
}

/// The character for a single decimal digit.
pub open spec fn digit_char(d: nat) -> char {
    if d == 0 {
        '0'
    } else if d == 1 {
        '1'
    } else if d == 2 {
        '2'
    } else if d == 3 {
        '3'
    } else if d == 4 {
        '4'
    } else if d == 5 {
        '5'
    } else if d == 6 {
        '6'
    } else if d == 7 {
        '7'
    } else if d == 8 {
        '8'
    } else {
        '9'
    }
}

/// The decimal numeral of `n`, most significant digit first, without leading zeros.
pub open spec fn decimal(n: nat) -> Seq<char>
    decreases n,
{
    if n < 10 {
        seq![digit_char(n)]
    } else {
        decimal(n / 10).push(digit_char(n % 10))
    }
}

/// The value of a decimal digit character; 10 for any other character.
pub open spec fn digit_value(c: char) -> nat {
    if c == '0' {
        0
    } else if c == '1' {
        1
    } else if c == '2' {
        2
    } else if c == '3' {
        3
    } else if c == '4' {
        4
    } else if c == '5' {
        5
    } else if c == '6' {
        6
    } else if c == '7' {
        7
    } else if c == '8' {
        8
    } else if c == '9' {
        9
    } else {
        10
    }
}

/// The number that a sequence of decimal digits denotes.
pub open spec fn decimal_value(s: Seq<char>) -> nat
    decreases s.len(),
{
    if s.len() == 0 {
        0
    } else {
        decimal_value(s.drop_last()) * 10 + digit_value(s.last())
    }
}

/// Reading a numeral back gives the number it was written from, so two
/// different numbers never share a numeral.
pub proof fn lemma_decimal_value(n: nat)
    ensures
        decimal_value(decimal(n)) == n,
        decimal(n).len() >= 1,
    decreases n,
{
    if n < 10 {
        let s = decimal(n);
        assert(s.drop_last() =~= Seq::<char>::empty());
        assert(decimal_value(s.drop_last()) == 0);
        assert(s.last() == digit_char(n));
    } else {
        lemma_decimal_value(n / 10);
        let s = decimal(n);
        assert(s.drop_last() =~= decimal(n / 10));
        assert(s.last() == digit_char(n % 10));
    }
}

/// Joining one more piece appends the separator and the piece, unless it is the first.
pub proof fn lemma_joined_push(parts: Seq<Seq<char>>, sep: Seq<char>, piece: Seq<char>)
    ensures
        joined(parts.push(piece), sep) == if parts.len() == 0 {
            piece
        } else {
            joined(parts, sep) + sep + piece
        },
{
    let all = parts.push(piece);
    assert(all.drop_last() =~= parts);
    assert(all.last() == piece);
}

/// How often `c` occurs in `s`.
pub open spec fn occurrences(s: Seq<char>, c: char) -> nat
    decreases s.len(),
{
    if s.len() == 0 {
        0
    } else {
        occurrences(s.drop_last(), c) + if s.last() == c {
            1nat
        } else {
            0nat
        }
    }
}

/// A character occurs in a concatenation as often as in its two parts
/// together.
pub proof fn lemma_occurrences_concat(a: Seq<char>, b: Seq<char>, c: char)
    ensures
        occurrences(a + b, c) == occurrences(a, c) + occurrences(b, c),
    decreases b.len(),
{
    if b.len() == 0 {
        assert(a + b =~= a);
    } else {
        lemma_occurrences_concat(a, b.drop_last(), c);
        assert((a + b).drop_last() =~= a + b.drop_last());
        assert((a + b).last() == b.last());
    }
}

/// A character occurs once in the text that consists of it, and not at all
/// in the text that consists of another.
pub proof fn lemma_occurrences_single(d: char, c: char)
    ensures
        occurrences(seq![d], c) == if d == c {
            1nat
        } else {
            0nat
        },
{
    assert(seq![d].drop_last() =~= Seq::<char>::empty());
    assert(seq![d].last() == d);
    assert(occurrences(seq![d].drop_last(), c) == 0);
}

/// Where every piece holds `c` equally often, the joined text holds it that
/// often for each piece, and once more for each separator that holds it.
pub proof fn lemma_occurrences_joined(parts: Seq<Seq<char>>, sep: Seq<char>, c: char, each: nat)
    requires
        forall|i: int| 0 <= i < parts.len() ==> occurrences(#[trigger] parts[i], c) == each,
    ensures
        occurrences(joined(parts, sep), c) == if parts.len() == 0 {
            0
        } else {
            parts.len() * each + (parts.len() - 1) * occurrences(sep, c)
        },
    decreases parts.len(),
{
    if parts.len() == 0 {
    } else if parts.len() == 1 {
        assert(1 * each == each) by (nonlinear_arith);
        assert(0 * occurrences(sep, c) == 0) by (nonlinear_arith);
    } else {
        let front = parts.drop_last();
        assert forall|i: int| 0 <= i < front.len() implies occurrences(
            #[trigger] front[i],
            c,
        ) == each by {
            assert(front[i] == parts[i]);
        }
        lemma_occurrences_joined(front, sep, c, each);
        lemma_occurrences_concat(joined(front, sep), sep, c);
        lemma_occurrences_concat(joined(front, sep) + sep, parts.last(), c);
        let n = parts.len();
        let k = occurrences(sep, c);
        assert((n - 1) * each + each == n * each) by (nonlinear_arith);
        assert((n - 2) * k + k == (n - 1) * k) by (nonlinear_arith);
    }
}

/// A numeral holds digits only.
pub proof fn lemma_decimal_digits_only(n: nat, c: char)
    requires
        digit_value(c) == 10,
    ensures
        occurrences(decimal(n), c) == 0,
    decreases n,
{
    if n < 10 {
        lemma_occurrences_single(digit_char(n), c);
    } else {
        lemma_decimal_digits_only(n / 10, c);
        let s = decimal(n);
        assert(s.drop_last() =~= decimal(n / 10));
        assert(s.last() == digit_char(n % 10));
    }
}

/// The text for one decimal digit.
fn digit_str(d: usize) -> (r: &'static str)
    requires
        d < 10,
    ensures
        r@ == seq![digit_char(d as nat)],
{
    proof {
        reveal_strlit("0");
        reveal_strlit("1");
        reveal_strlit("2");
        reveal_strlit("3");
        reveal_strlit("4");
        reveal_strlit("5");
        reveal_strlit("6");
        reveal_strlit("7");
        reveal_strlit("8");
        reveal_strlit("9");
    }
    let r = if d == 0 {
        "0"
    } else if d == 1 {
        "1"
    } else if d == 2 {
        "2"
    } else if d == 3 {
        "3"
    } else if d == 4 {
        "4"
    } else if d == 5 {
        "5"
    } else if d == 6 {
        "6"
    } else if d == 7 {
        "7"
    } else if d == 8 {
        "8"
    } else {
        "9"
    };
    assert(r@ =~= seq![digit_char(d as nat)]);
    r
}

/// Appends the decimal numeral of `n` to `out`.
pub fn push_decimal(out: &mut String, n: usize)
    ensures
        final(out)@ == old(out)@ + decimal(n as nat),
    decreases n,
{
    if n >= 10 {
        push_decimal(out, n / 10);
    }
    out.append(digit_str(n % 10));
    proof {
        if n >= 10 {
            assert(out@ =~= old(out)@ + decimal((n / 10) as nat).push(digit_char((n % 10) as nat)));
        } else {
            assert(out@ =~= old(out)@ + seq![digit_char(n as nat)]);
        }
    }
}

/// Calls `Itertools::join` on the strings of `parts`: the result is every
/// string in order, with `sep` between each neighbouring pair, and the empty
/// string when `parts` is empty.
#[verifier::external_body]
pub(crate) fn join(parts: &Vec<String>, sep: &str) -> (r: String)
    ensures
        r@ == joined(views(parts@), sep@),
{
    parts.iter().join(sep)
}

} // verus!
