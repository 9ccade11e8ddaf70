//! Building text from verified pieces: decimal numbers and literals.

use vstd::prelude::*;

verus! {

/// The ASCII character of the decimal digit `d` (`d < 10`).
pub open spec fn digit_char(d: nat) -> char {
    (48 + d) as char
}

/// The decimal representation of `n`, without leading zeros.
pub open spec fn decimal(n: nat) -> Seq<char>
    decreases n,
{
    if n < 10 {
        seq![digit_char(n)]
    } else {
        decimal(n / 10) + seq![digit_char(n % 10)]
    }
}

/// A one-character string holding the digit `d`.
pub fn digit_str(d: u64) -> (r: &'static str)
    requires
        d < 10,
    ensures
        r@ == seq![digit_char(d as nat)],
{
    match d {
        0 => {
            proof { reveal_strlit("0"); }
            "0"
        },
        1 => {
            proof { reveal_strlit("1"); }
            "1"
        },
        2 => {
            proof { reveal_strlit("2"); }
            "2"
        },
        3 => {
            proof { reveal_strlit("3"); }
            "3"
        },
        4 => {
            proof { reveal_strlit("4"); }
            "4"
        },
        5 => {
            proof { reveal_strlit("5"); }
            "5"
        },
        6 => {
            proof { reveal_strlit("6"); }
            "6"
        },
        7 => {
            proof { reveal_strlit("7"); }
            "7"
        },
        8 => {
            proof { reveal_strlit("8"); }
            "8"
        },
        _ => {
            proof { reveal_strlit("9"); }
            "9"
        },
    }
}

/// Appends the decimal representation of `n` to `s`.
pub fn push_decimal(s: &mut String, n: u64)
    ensures
        final(s)@ == old(s)@ + decimal(n as nat),
    decreases n,
{
    if n >= 10 {
        push_decimal(s, n / 10);
    }
    s.append(digit_str(n % 10));
}

/// The decimal representation of `n` as a new string.
pub fn decimal_string(n: u64) -> (r: String)
    ensures
        r@ == decimal(n as nat),
{
    let mut s = String::new();
    push_decimal(&mut s, n);
    s
}

} // verus!

verus! {

/// The decimal representation is made of digits only, at least one.
pub proof fn lemma_decimal_digits(n: nat)
    ensures
        decimal(n).len() >= 1,
        n < 10 <==> decimal(n).len() == 1,
        forall|i: int| 0 <= i < decimal(n).len() ==> '0' <= #[trigger] decimal(n)[i] <= '9',
    decreases n,
{
    if n >= 10 {
        lemma_decimal_digits(n / 10);
        let d = decimal(n / 10) + seq![digit_char(n % 10)];
        assert forall|i: int| 0 <= i < d.len() implies '0' <= #[trigger] d[i] <= '9' by {
            if i < decimal(n / 10).len() {
                assert(d[i] == decimal(n / 10)[i]);
            }
        }
    }
}

proof fn lemma_digit_char_injective(x: nat, y: nat)
    requires
        x < 10,
        y < 10,
        digit_char(x) == digit_char(y),
    ensures
        x == y,
{
    assert(digit_char(x) as int == 48 + x);
    assert(digit_char(y) as int == 48 + y);
}

/// Different numbers have different decimal representations.
pub proof fn lemma_decimal_injective(a: nat, b: nat)
    requires
        decimal(a) == decimal(b),
    ensures
        a == b,
    decreases a,
{
    lemma_decimal_digits(a);
    lemma_decimal_digits(b);
    if a >= 10 {
        assert(b >= 10);
        let da = decimal(a);
        assert(da.last() == digit_char(a % 10));
        assert(decimal(b).last() == digit_char(b % 10));
        lemma_digit_char_injective(a % 10, b % 10);
        assert(decimal(a / 10) =~= da.drop_last());
        assert(decimal(b / 10) =~= decimal(b).drop_last());
        lemma_decimal_injective(a / 10, b / 10);
    } else {
        assert(decimal(a)[0] == digit_char(a));
        assert(decimal(b)[0] == digit_char(b));
        lemma_digit_char_injective(a, b);
    }
}

/// Two texts that each start with a field without `.` followed by a `.`
/// agree on that field, and on the rest, when they are equal.
pub proof fn lemma_dot_split(x1: Seq<char>, r1: Seq<char>, x2: Seq<char>, r2: Seq<char>)
    requires
        forall|i: int| 0 <= i < x1.len() ==> #[trigger] x1[i] != '.',
        forall|i: int| 0 <= i < x2.len() ==> #[trigger] x2[i] != '.',
        x1 + seq!['.'] + r1 == x2 + seq!['.'] + r2,
    ensures
        x1 == x2,
        r1 == r2,
{
    let s1 = x1 + seq!['.'] + r1;
    let s2 = x2 + seq!['.'] + r2;
    if x1.len() < x2.len() {
        assert(s1[x1.len() as int] == '.');
        assert(s2[x1.len() as int] == x2[x1.len() as int]);
    } else if x2.len() < x1.len() {
        assert(s2[x2.len() as int] == '.');
        assert(s1[x2.len() as int] == x1[x2.len() as int]);
    }
    assert(x1 =~= s1.take(x1.len() as int));
    assert(x2 =~= s2.take(x2.len() as int));
    assert(r1 =~= s1.skip(x1.len() as int + 1));
    assert(r2 =~= s2.skip(x2.len() as int + 1));
}

/// The dotted quad `a.b.c.d` in decimal.
pub open spec fn dotted_quad(a: nat, b: nat, c: nat, d: nat) -> Seq<char> {
    decimal(a) + seq!['.'] + (decimal(b) + seq!['.'] + (decimal(c) + seq!['.'] + decimal(d)))
}

/// Different quads print differently.
pub proof fn lemma_dotted_quad_injective(a1: nat, b1: nat, c1: nat, d1: nat, a2: nat, b2: nat, c2: nat, d2: nat)
    requires
        dotted_quad(a1, b1, c1, d1) == dotted_quad(a2, b2, c2, d2),
    ensures
        a1 == a2 && b1 == b2 && c1 == c2 && d1 == d2,
{
    lemma_decimal_digits(a1);
    lemma_decimal_digits(a2);
    lemma_decimal_digits(b1);
    lemma_decimal_digits(b2);
    lemma_decimal_digits(c1);
    lemma_decimal_digits(c2);
    lemma_dot_split(
        decimal(a1),
        decimal(b1) + seq!['.'] + (decimal(c1) + seq!['.'] + decimal(d1)),
        decimal(a2),
        decimal(b2) + seq!['.'] + (decimal(c2) + seq!['.'] + decimal(d2)),
    );
    lemma_dot_split(
        decimal(b1),
        decimal(c1) + seq!['.'] + decimal(d1),
        decimal(b2),
        decimal(c2) + seq!['.'] + decimal(d2),
    );
    lemma_dot_split(decimal(c1), decimal(d1), decimal(c2), decimal(d2));
    lemma_decimal_injective(a1, a2);
    lemma_decimal_injective(b1, b2);
    lemma_decimal_injective(c1, c2);
    lemma_decimal_injective(d1, d2);
}

/// The fields of `s` separated by `sep`, as `str::split` yields them: one
/// more field than there are separators, empty fields included.
pub open spec fn split_fields(s: Seq<char>, sep: char) -> Seq<Seq<char>>
    decreases s.len(),
{
    if s.len() == 0 {
        seq![Seq::empty()]
    } else {
        let init = split_fields(s.drop_last(), sep);
        if s.last() == sep {
            init.push(Seq::empty())
        } else {
            init.update(init.len() - 1, init.last().push(s.last()))
        }
    }
}

proof fn lemma_split_fields_nonempty(s: Seq<char>, sep: char)
    ensures
        split_fields(s, sep).len() >= 1,
    decreases s.len(),
{
    if s.len() > 0 {
        lemma_split_fields_nonempty(s.drop_last(), sep);
    }
}

/// The texts of a list of strings.
pub open spec fn string_views(v: Seq<String>) -> Seq<Seq<char>> {
    v.map_values(|f: String| f@)
}

/// The fields of `s` separated by `sep`.
pub fn split_str(s: &str, sep: char) -> (r: Vec<String>)
    ensures
        string_views(r@) == split_fields(s@, sep),
{
    let n = s.unicode_len();
    let mut fields: Vec<String> = Vec::new();
    let mut start: usize = 0;
    let mut i: usize = 0;
    proof {
        assert(s@.take(0) =~= Seq::<char>::empty());
        assert(string_views(fields@) + seq![s@.subrange(0, 0)] =~= seq![Seq::<char>::empty()]);
    }
    while i < n
        invariant
            n == s@.len(),
            start <= i <= n,
            string_views(fields@) + seq![s@.subrange(start as int, i as int)] == split_fields(
                s@.take(i as int),
                sep,
            ),
        decreases n - i,
    {
        let c = s.get_char(i);
        let ghost before = string_views(fields@);
        let ghost cur = s@.subrange(start as int, i as int);
        proof {
            assert(s@.take(i + 1).drop_last() =~= s@.take(i as int));
            assert(s@.take(i + 1).last() == c);
            lemma_split_fields_nonempty(s@.take(i as int), sep);
            assert(s@.subrange(start as int, i + 1) =~= cur.push(c));
        }
        if c == sep {
            let field = String::from_str(s.substring_char(start, i));
            fields.push(field);
            start = i + 1;
            proof {
                assert(string_views(fields@) =~= before.push(cur));
                assert(s@.subrange(start as int, i + 1) =~= Seq::<char>::empty());
                assert(string_views(fields@) + seq![s@.subrange(start as int, i + 1)] =~= (before
                    + seq![cur]).push(Seq::empty()));
            }
        } else {
            proof {
                let f = before + seq![cur];
                assert(f.update(f.len() - 1, f.last().push(c)) =~= before + seq![cur.push(c)]);
            }
        }
        i = i + 1;
    }
    let ghost before = string_views(fields@);
    let last = String::from_str(s.substring_char(start, n));
    fields.push(last);
    proof {
        assert(s@.take(n as int) =~= s@);
        assert(string_views(fields@) =~= before + seq![s@.subrange(start as int, n as int)]);
    }
    fields
}

} // verus!
