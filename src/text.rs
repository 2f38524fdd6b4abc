//! Character-level helpers: the `key: value` split of a storage line, exact
//! comparison with a literal, and decimal rendering of integers.

use vstd::prelude::*;

verus! {

/// Whether `s` holds the separator `": "` starting at position `i`.
pub open spec fn is_sep_at(s: Seq<char>, i: int) -> bool {
    0 <= i && i + 1 < s.len() && s[i] == ':' && s[i + 1] == ' '
}

/// Whether `s` holds the separator at position `i` and nowhere else.
pub open spec fn only_sep_at(s: Seq<char>, i: int) -> bool {
    is_sep_at(s, i) && forall|j: int| #[trigger] is_sep_at(s, j) ==> j == i
}

/// Whether `s` holds the separator nowhere.
pub open spec fn has_no_sep(s: Seq<char>) -> bool {
    forall|j: int| !#[trigger] is_sep_at(s, j)
}

/// A line split at its separator into key and value: present exactly when the
/// separator occurs once, so that the line falls into two parts.
pub open spec fn key_value_of(s: Seq<char>) -> Option<(Seq<char>, Seq<char>)> {
    if exists|i: int| only_sep_at(s, i) {
        let i = choose|i: int| only_sep_at(s, i);
        Some((s.take(i), s.skip(i + 2)))
    } else {
        None
    }
}

/// The first separator at or after `from`.
fn find_sep(s: &str, n: usize, from: usize) -> (r: Option<usize>)
    requires
        n == s@.len(),
        from <= n,
    ensures
        r matches Some(i) ==> from <= i && is_sep_at(s@, i as int),
        forall|j: int| from <= j && (r matches Some(i) ==> j < i) ==> !#[trigger] is_sep_at(s@, j),
{
    let mut i = from;
    while i < n
        invariant
            n == s@.len(),
            from <= i <= n,
            forall|j: int| from <= j < i ==> !#[trigger] is_sep_at(s@, j),
        decreases n - i,
    {
        if i + 1 < n && s.get_char(i) == ':' && s.get_char(i + 1) == ' ' {
            return Some(i);
        }
        i = i + 1;
    }
    None
}

/// Splits a line at its separator, when it occurs exactly once.
pub fn split_key_value(s: &str) -> (r: Option<(&str, &str)>)
    ensures
        r matches Some((k, v)) ==> key_value_of(s@) == Some((k@, v@)),
        r is None ==> key_value_of(s@) is None,
{
    let n = s.unicode_len();
    match find_sep(s, n, 0) {
        None => {
            assert(!exists|i: int| only_sep_at(s@, i));
            None
        },
        Some(i) => {
            match find_sep(s, n, i + 1) {
                Some(j) => {
                    assert forall|x: int| !only_sep_at(s@, x) by {
                        if only_sep_at(s@, x) {
                            assert(is_sep_at(s@, i as int));
                            assert(is_sep_at(s@, j as int));
                        }
                    }
                    None
                },
                None => {
                    assert(only_sep_at(s@, i as int));
                    let k = s.substring_char(0, i);
                    let v = s.substring_char(i + 2, n);
                    proof {
                        let c = choose|c: int| only_sep_at(s@, c);
                        assert(c == i);
                    }
                    Some((k, v))
                },
            }
        },
    }
}

/// Whether `s` reads exactly `lit`.
pub fn text_eq(s: &str, lit: &str) -> (r: bool)
    ensures
        r == (s@ == lit@),
{
    let n = s.unicode_len();
    if n != lit.unicode_len() {
        return false;
    }
    let mut i: usize = 0;
    while i < n
        invariant
            n == s@.len(),
            n == lit@.len(),
            i <= n,
            forall|j: int| 0 <= j < i ==> s@[j] == lit@[j],
        decreases n - i,
    {
        if s.get_char(i) != lit.get_char(i) {
            return false;
        }
        i = i + 1;
    }
    assert(s@ =~= lit@);
    true
}

/// The decimal digit for `d`.
pub open spec fn digit_char(d: int) -> char {
    if d == 0 {
        '0'
    } else if d == 1 {
        '1'
    } else if d == 2 {
        '2'
    } else if d == 3 {
        '3'
    } else if d == 4 {
        '4'
    } else if d == 5 {
        '5'
    } else if d == 6 {
        '6'
    } else if d == 7 {
        '7'
    } else if d == 8 {
        '8'
    } else {
        '9'
    }
}

/// The decimal digits of a natural number, most significant first, with no
/// leading zero.
pub open spec fn nat_text(n: nat) -> Seq<char>
    decreases n,
{
    if n < 10 {
        seq![digit_char(n as int)]
    } else {
        nat_text(n / 10) + seq![digit_char((n % 10) as int)]
    }
}

/// The decimal form of an integer, with a leading `-` when it is negative.
pub open spec fn int_text(n: int) -> Seq<char> {
    if n < 0 {
        seq!['-'] + nat_text((-n) as nat)
    } else {
        nat_text(n as nat)
    }
}

fn digit_str(d: u64) -> (r: &'static str)
    requires
        d < 10,
    ensures
        r@ == seq![digit_char(d as int)],
{
    if d == 0 {
        proof {
            reveal_strlit("0");
        }
        assert("0"@ =~= seq![digit_char(d as int)]);
        "0"
    } else if d == 1 {
        proof {
            reveal_strlit("1");
        }
        assert("1"@ =~= seq![digit_char(d as int)]);
        "1"
    } else if d == 2 {
        proof {
            reveal_strlit("2");
        }
        assert("2"@ =~= seq![digit_char(d as int)]);
        "2"
    } else if d == 3 {
        proof {
            reveal_strlit("3");
        }
        assert("3"@ =~= seq![digit_char(d as int)]);
        "3"
    } else if d == 4 {
        proof {
            reveal_strlit("4");
        }
        assert("4"@ =~= seq![digit_char(d as int)]);
        "4"
    } else if d == 5 {
        proof {
            reveal_strlit("5");
        }
        assert("5"@ =~= seq![digit_char(d as int)]);
        "5"
    } else if d == 6 {
        proof {
            reveal_strlit("6");
        }
        assert("6"@ =~= seq![digit_char(d as int)]);
        "6"
    } else if d == 7 {
        proof {
            reveal_strlit("7");
        }
        assert("7"@ =~= seq![digit_char(d as int)]);
        "7"
    } else if d == 8 {
        proof {
            reveal_strlit("8");
        }
        assert("8"@ =~= seq![digit_char(d as int)]);
        "8"
    } else {
        proof {
            reveal_strlit("9");
        }
        assert("9"@ =~= seq![digit_char(d as int)]);
        "9"
    }
}

/// Appends the decimal digits of `n` to `s`.
fn append_nat(s: &mut String, n: u64)
    ensures
        final(s)@ == old(s)@ + nat_text(n as nat),
    decreases n,
{
    if n >= 10 {
        append_nat(s, n / 10);
    }
    s.append(digit_str(n % 10));
    assert(final(s)@ =~= old(s)@ + nat_text(n as nat));
}

/// Appends the decimal form of `n` to `s`.
pub fn append_int(s: &mut String, n: i64)
    ensures
        final(s)@ == old(s)@ + int_text(n as int),
{
    if n < 0 {
        proof {
            reveal_strlit("-");
        }
        s.append("-");
        let m: u64 = if n == i64::MIN {
            9223372036854775808u64
        } else {
            (-n) as u64
        };
        append_nat(s, m);
        assert(final(s)@ =~= old(s)@ + int_text(n as int));
    } else {
        append_nat(s, n as u64);
    }
}

} // verus!
