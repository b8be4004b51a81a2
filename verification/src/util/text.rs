//! Building texts: numbers in decimal, and lists with a separator.

use vstd::prelude::*;

verus! {

/// The character of the digit `d`.
pub open spec fn digit_char(d: nat) -> char
    recommends
        d < 10,
{
    ((48 + d) as u8) as char
}

/// The decimal digits of `n` as characters, most significant first.
pub open spec fn digit_chars(n: nat) -> Seq<char>
    decreases n,
{
    if n < 10 {
        seq![digit_char(n)]
    } else {
        digit_chars(n / 10).push(digit_char(n % 10))
    }
}

/// The decimal text of a signed integer as characters.
pub open spec fn signed_digit_chars(n: int) -> Seq<char> {
    if n < 0 {
        seq!['-'] + digit_chars((-n) as nat)
    } else {
        digit_chars(n as nat)
    }
}

/// The texts of `parts` with `sep` between each two.
pub open spec fn join(parts: Seq<Seq<char>>, sep: Seq<char>) -> Seq<char>
    decreases parts.len(),
{
    if parts.len() == 0 {
        Seq::empty()
    } else if parts.len() == 1 {
        parts[0]
    } else {
        join(parts.drop_last(), sep) + sep + parts.last()
    }
}

/// The texts of `items`.
pub open spec fn string_views(items: Seq<String>) -> Seq<Seq<char>> {
    Seq::new(items.len(), |i: int| items[i]@)
}

/// The texts of a run of strings with one more are the texts of the run
/// with the text of the one more.
pub proof fn lemma_string_views_push(items: Seq<String>, last: String)
    ensures
        string_views(items.push(last)) == string_views(items).push(last@),
{
    assert(string_views(items.push(last)) =~= string_views(items).push(last@));
}

fn digit_str(d: u8) -> (r: &'static str)
    requires
        d < 10,
    ensures
        r@ == seq![digit_char(d as nat)],
{
    proof {
        reveal_strlit("0");
        reveal_strlit("1");
        reveal_strlit("2");
        reveal_strlit("3");
        reveal_strlit("4");
        reveal_strlit("5");
        reveal_strlit("6");
        reveal_strlit("7");
        reveal_strlit("8");
        reveal_strlit("9");
    }
    let r = if d == 0 {
        "0"
    } else if d == 1 {
        "1"
    } else if d == 2 {
        "2"
    } else if d == 3 {
        "3"
    } else if d == 4 {
        "4"
    } else if d == 5 {
        "5"
    } else if d == 6 {
        "6"
    } else if d == 7 {
        "7"
    } else if d == 8 {
        "8"
    } else {
        "9"
    };
    proof {
        assert(r@ =~= seq![digit_char(d as nat)]);
    }
    r
}

/// Appends the decimal text of `n` to `out`.
pub fn push_decimal(out: &mut String, n: u128)
    ensures
        final(out)@ == old(out)@ + digit_chars(n as nat),
    decreases n,
{
    if n >= 10 {
        push_decimal(out, n / 10);
    }
    let ghost before = out@;
    out.append(digit_str((n % 10) as u8));
    proof {
        if n >= 10 {
            assert(out@ =~= old(out)@ + digit_chars(n as nat));
        } else {
            assert(out@ =~= old(out)@ + digit_chars(n as nat));
        }
    }
}

/// Appends the decimal text of `n` to `out`, with a minus sign where `n`
/// is negative.
pub fn push_signed_decimal(out: &mut String, n: i64)
    ensures
        final(out)@ == old(out)@ + signed_digit_chars(n as int),
{
    if n >= 0 {
        push_decimal(out, n as u128);
    } else {
        let magnitude: u128 = if n == i64::MIN {
            9223372036854775808u128
        } else {
            (-n) as u128
        };
        proof {
            reveal_strlit("-");
        }
        out.append("-");
        push_decimal(out, magnitude);
        proof {
            assert(out@ =~= old(out)@ + signed_digit_chars(n as int));
        }
    }
}

/// Appends the texts of `parts` to `out`, with `sep` between each two.
pub fn push_joined(out: &mut String, parts: &Vec<String>, sep: &str)
    ensures
        final(out)@ == old(out)@ + join(string_views(parts@), sep@),
{
    let ghost views = string_views(parts@);
    let mut i: usize = 0;
    proof {
        assert(views.take(0) =~= Seq::<Seq<char>>::empty());
        assert(out@ =~= old(out)@ + join(views.take(0), sep@));
    }
    while i < parts.len()
        invariant
            i <= parts@.len(),
            views == string_views(parts@),
            out@ == old(out)@ + join(views.take(i as int), sep@),
        decreases parts@.len() - i,
    {
        if i > 0 {
            out.append(sep);
        }
        out.append(parts[i].as_str());
        i = i + 1;
        proof {
            let t = views.take(i as int);
            assert(t.drop_last() =~= views.take(i - 1));
            assert(t.last() == parts@[i - 1]@);
            if i == 1 {
                assert(t[0] == parts@[0]@);
                assert(out@ =~= old(out)@ + join(t, sep@));
            } else {
                assert(out@ =~= old(out)@ + join(t, sep@));
            }
        }
    }
    proof {
        assert(views.take(i as int) =~= views);
    }
}

} // verus!
