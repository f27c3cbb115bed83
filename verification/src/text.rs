//! Text primitives: splitting content into lines, comparing strings,
//! and rendering line numbers in decimal.
//!
//! A line is the text between line terminators; a terminator is `'\n'`,
//! optionally preceded by `'\r'`, which is not part of the line. The final
//! line needs no terminator; a trailing terminator adds no empty line.

use vstd::prelude::*;

verus! {

/// A line with its terminator stripped: a `'\r'` that stood just before
/// the `'\n'` is not part of the line.
pub open spec fn strip_cr(l: Seq<char>) -> Seq<char> {
    if l.len() > 0 && l.last() == '\r' {
        l.drop_last()
    } else {
        l
    }
}

/// Index of the first `'\n'` in `s`, or `s.len()` if there is none.
pub open spec fn first_newline(s: Seq<char>) -> nat
    decreases s.len(),
{
    if s.len() == 0 {
        0
    } else if s[0] == '\n' {
        0
    } else {
        (1 + first_newline(s.drop_first())) as nat
    }
}

/// If no `'\n'` stands before position `i` and one stands at `i`,
/// then `i` is the first.
pub proof fn lemma_first_newline_at(s: Seq<char>, i: int)
    requires
        0 <= i < s.len(),
        s[i] == '\n',
        forall|k: int| 0 <= k < i ==> s[k] != '\n',
    ensures
        first_newline(s) == i,
    decreases s.len(),
{
    if i > 0 {
        assert forall|k: int| 0 <= k < i - 1 implies s.drop_first()[k] != '\n' by {
            assert(s[k + 1] != '\n');
        }
        assert(s.drop_first()[i - 1] == '\n');
        lemma_first_newline_at(s.drop_first(), i - 1);
    }
}

/// If `s` holds no `'\n'` at all, the first newline is past the end.
pub proof fn lemma_first_newline_none(s: Seq<char>)
    requires
        forall|k: int| 0 <= k < s.len() ==> s[k] != '\n',
    ensures
        first_newline(s) == s.len(),
    decreases s.len(),
{
    if s.len() > 0 {
        assert forall|k: int| 0 <= k < s.drop_first().len() implies s.drop_first()[k] != '\n' by {
            assert(s[k + 1] != '\n');
        }
        lemma_first_newline_none(s.drop_first());
    }
}

/// The lines of `s`, in order.
pub open spec fn spec_lines(s: Seq<char>) -> Seq<Seq<char>>
    decreases s.len(),
{
    if s.len() == 0 {
        Seq::empty()
    } else {
        let i = first_newline_clipped(s);
        if i >= s.len() {
            seq![s]
        } else {
            seq![strip_cr(s.subrange(0, i))] + spec_lines(s.subrange(i + 1, s.len() as int))
        }
    }
}

/// `first_newline`, with the bound `<= s.len()` visible to the definition
/// of `spec_lines` so that its recursion visibly terminates.
pub open spec fn first_newline_clipped(s: Seq<char>) -> int {
    if first_newline(s) <= s.len() {
        first_newline(s) as int
    } else {
        s.len() as int
    }
}

/// There are never more lines than characters.
pub proof fn lemma_lines_count(s: Seq<char>)
    ensures
        spec_lines(s).len() <= s.len(),
    decreases s.len(),
{
    if s.len() > 0 {
        let i = first_newline_clipped(s);
        if i < s.len() {
            lemma_lines_count(s.subrange(i + 1, s.len() as int));
        }
    }
}

/// Unfolds `spec_lines` at a newline found at position `i`.
pub proof fn lemma_lines_step(s: Seq<char>, i: int)
    requires
        0 <= i < s.len(),
        s[i] == '\n',
        forall|k: int| 0 <= k < i ==> s[k] != '\n',
    ensures
        spec_lines(s) == seq![strip_cr(s.subrange(0, i))] + spec_lines(
            s.subrange(i + 1, s.len() as int),
        ),
{
    lemma_first_newline_at(s, i);
}

/// A non-empty `s` without any `'\n'` is one line, kept as it is.
pub proof fn lemma_lines_single(s: Seq<char>)
    requires
        s.len() > 0,
        forall|k: int| 0 <= k < s.len() ==> s[k] != '\n',
    ensures
        spec_lines(s) == seq![s],
{
    lemma_first_newline_none(s);
}

/// Whether the first `n` characters of `a` and `b` agree.
fn chars_eq_prefix(a: &str, b: &str, n: usize) -> (r: bool)
    requires
        n <= a@.len(),
        n <= b@.len(),
    ensures
        r == (a@.subrange(0, n as int) == b@.subrange(0, n as int)),
{
    let mut j: usize = 0;
    while j < n
        invariant
            0 <= j <= n,
            n <= a@.len(),
            n <= b@.len(),
            forall|k: int| 0 <= k < j ==> a@[k] == b@[k],
        decreases n - j,
    {
        if a.get_char(j) != b.get_char(j) {
            assert(a@.subrange(0, n as int)[j as int] != b@.subrange(0, n as int)[j as int]);
            return false;
        }
        j += 1;
    }
    proof {
        assert(a@.subrange(0, n as int) =~= b@.subrange(0, n as int));
    }
    true
}

/// Whether two string slices hold the same characters.
pub fn str_eq(a: &str, b: &str) -> (r: bool)
    ensures
        r == (a@ == b@),
{
    let an = a.unicode_len();
    let bn = b.unicode_len();
    if an != bn {
        return false;
    }
    let r = chars_eq_prefix(a, b, an);
    proof {
        assert(a@.subrange(0, an as int) =~= a@);
        assert(b@.subrange(0, an as int) =~= b@);
    }
    r
}

/// The character for one decimal digit.
pub open spec fn spec_digit_char(d: int) -> char {
    if d == 0 {
        '0'
    } else if d == 1 {
        '1'
    } else if d == 2 {
        '2'
    } else if d == 3 {
        '3'
    } else if d == 4 {
        '4'
    } else if d == 5 {
        '5'
    } else if d == 6 {
        '6'
    } else if d == 7 {
        '7'
    } else if d == 8 {
        '8'
    } else {
        '9'
    }
}

/// The decimal rendering of `n`, most significant digit first.
pub open spec fn spec_dec(n: nat) -> Seq<char>
    decreases n,
{
    if n < 10 {
        seq![spec_digit_char(n as int)]
    } else {
        spec_dec(n / 10).push(spec_digit_char((n % 10) as int))
    }
}

/// Appends the character for one digit value below ten.
fn append_digit(s: &mut String, d: usize)
    requires
        d < 10,
    ensures
        final(s)@ == old(s)@.push(spec_digit_char(d as int)),
{
    proof {
        reveal_strlit("0");
        reveal_strlit("1");
        reveal_strlit("2");
        reveal_strlit("3");
        reveal_strlit("4");
        reveal_strlit("5");
        reveal_strlit("6");
        reveal_strlit("7");
        reveal_strlit("8");
        reveal_strlit("9");
    }
    if d == 0 {
        s.append("0");
    } else if d == 1 {
        s.append("1");
    } else if d == 2 {
        s.append("2");
    } else if d == 3 {
        s.append("3");
    } else if d == 4 {
        s.append("4");
    } else if d == 5 {
        s.append("5");
    } else if d == 6 {
        s.append("6");
    } else if d == 7 {
        s.append("7");
    } else if d == 8 {
        s.append("8");
    } else {
        s.append("9");
    }
    proof {
        assert(s@ =~= old(s)@.push(spec_digit_char(d as int)));
    }
}

/// Renders `n` in decimal.
pub fn usize_to_string(n: usize) -> (r: String)
    ensures
        r@ == spec_dec(n as nat),
{
    let mut digits: Vec<usize> = Vec::new();
    let mut m: usize = n;
    while m >= 10
        invariant
            spec_dec(n as nat) == spec_dec(m as nat) + digits@.map_values(
                |d: usize| spec_digit_char(d as int),
            ),
            forall|k: int| 0 <= k < digits@.len() ==> digits@[k] < 10,
        decreases m,
    {
        let ghost before = digits@;
        digits.insert(0, m % 10);
        proof {
            assert(digits@.map_values(|d: usize| spec_digit_char(d as int)) =~= seq![
                spec_digit_char((m % 10) as int),
            ] + before.map_values(|d: usize| spec_digit_char(d as int)));
            assert(spec_dec(m as nat) =~= spec_dec((m as nat) / 10) + seq![
                spec_digit_char((m % 10) as int),
            ]);
            assert(spec_dec(n as nat) =~= spec_dec(((m / 10) as usize) as nat) + seq![
                spec_digit_char((m % 10) as int),
            ] + before.map_values(|d: usize| spec_digit_char(d as int)));
        }
        m = m / 10;
    }
    let ghost before = digits@;
    digits.insert(0, m);
    proof {
        assert(digits@.map_values(|d: usize| spec_digit_char(d as int)) =~= seq![
            spec_digit_char(m as int),
        ] + before.map_values(|d: usize| spec_digit_char(d as int)));
        assert(spec_dec(m as nat) =~= seq![spec_digit_char(m as int)]);
    }
    let mut r = String::new();
    let mut j: usize = 0;
    while j < digits.len()
        invariant
            0 <= j <= digits@.len(),
            forall|k: int| 0 <= k < digits@.len() ==> digits@[k] < 10,
            r@ == digits@.map_values(|d: usize| spec_digit_char(d as int)).take(j as int),
        decreases digits@.len() - j,
    {
        let d = digits[j];
        append_digit(&mut r, d);
        proof {
            assert(r@ =~= digits@.map_values(|d: usize| spec_digit_char(d as int)).take(
                j as int + 1,
            ));
        }
        j += 1;
    }
    proof {
        assert(digits@.map_values(|d: usize| spec_digit_char(d as int)).take(j as int) =~= spec_dec(
            n as nat,
        ));
    }
    r
}

} // verus!
