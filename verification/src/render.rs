//! A set written out as the list of its indices.
//!
//! The rendering is that of a set in debug formatting: the indices in
//! decimal between braces, separated by commas on one line, or one to a
//! line where the alternate form is asked for.

use vstd::prelude::*;
use vstd::string::StringExecFns;

verus! {

/// The character of a digit below ten.
pub open spec fn digit(d: nat) -> char {
    if d == 0 {
        '0'
    } else if d == 1 {
        '1'
    } else if d == 2 {
        '2'
    } else if d == 3 {
        '3'
    } else if d == 4 {
        '4'
    } else if d == 5 {
        '5'
    } else if d == 6 {
        '6'
    } else if d == 7 {
        '7'
    } else if d == 8 {
        '8'
    } else {
        '9'
    }
}

/// A number in decimal, without leading zeros.
pub open spec fn decimal(n: nat) -> Seq<char>
    decreases n,
{
    if n < 10 {
        seq![digit(n)]
    } else {
        decimal(n / 10).push(digit(n % 10))
    }
}

/// What is written for the index at position `i` of the list: the number,
/// and what parts it from the next.
pub open spec fn entry(indices: Seq<usize>, i: int, pretty: bool) -> Seq<char> {
    if pretty {
        "    "@ + decimal(indices[i] as nat) + ",\n"@
    } else if i + 1 == indices.len() {
        decimal(indices[i] as nat)
    } else {
        decimal(indices[i] as nat) + ", "@
    }
}

/// What is written for the indices before position `to`.
pub open spec fn entries(indices: Seq<usize>, to: int, pretty: bool) -> Seq<char>
    decreases to,
{
    if to <= 0 {
        Seq::empty()
    } else {
        entries(indices, to - 1, pretty) + entry(indices, to - 1, pretty)
    }
}

/// The list of indices as a set in debug formatting: in its alternate form
/// where `pretty` is set.
pub open spec fn rendered(indices: Seq<usize>, pretty: bool) -> Seq<char> {
    if indices.len() == 0 {
        "{}"@
    } else if pretty {
        "{\n"@ + entries(indices, indices.len() as int, pretty) + "}"@
    } else {
        "{"@ + entries(indices, indices.len() as int, pretty) + "}"@
    }
}

/// The text of a digit below ten.
fn digit_text(d: usize) -> (r: &'static str)
    requires
        d < 10,
    ensures
        r@ == seq![digit(d as nat)],
{
    proof {
        reveal_strlit("0");
        reveal_strlit("1");
        reveal_strlit("2");
        reveal_strlit("3");
        reveal_strlit("4");
        reveal_strlit("5");
        reveal_strlit("6");
        reveal_strlit("7");
        reveal_strlit("8");
        reveal_strlit("9");
    }
    let r = if d == 0 {
        "0"
    } else if d == 1 {
        "1"
    } else if d == 2 {
        "2"
    } else if d == 3 {
        "3"
    } else if d == 4 {
        "4"
    } else if d == 5 {
        "5"
    } else if d == 6 {
        "6"
    } else if d == 7 {
        "7"
    } else if d == 8 {
        "8"
    } else {
        "9"
    };
    assert(r@ =~= seq![digit(d as nat)]);
    r
}

/// Writes `n` in decimal at the end of `out`.
fn push_decimal(out: &mut String, n: usize)
    ensures
        final(out)@ == old(out)@ + decimal(n as nat),
    decreases n,
{
    if n >= 10 {
        push_decimal(out, n / 10);
    }
    out.append(digit_text(n % 10));
    proof {
        if n >= 10 {
            assert(old(out)@ + decimal((n / 10) as nat) + seq![digit((n % 10) as nat)] =~= old(
                out,
            )@ + decimal(n as nat));
        }
    }
}

/// Writes a list of indices as a set in debug formatting: `{1, 2, 5}`, or
/// one index to a line where `pretty` is set. The empty list gives `{}`.
pub fn render(indices: &Vec<usize>, pretty: bool) -> (r: String)
    ensures
        r@ == rendered(indices@, pretty),
{
    if indices.len() == 0 {
        return String::from_str("{}");
    }
    let mut out = if pretty {
        String::from_str("{\n")
    } else {
        String::from_str("{")
    };
    let ghost opening = out@;
    let mut i: usize = 0;
    while i < indices.len()
        invariant
            i <= indices@.len(),
            out@ == opening + entries(indices@, i as int, pretty),
        decreases indices@.len() - i,
    {
        let ghost before = out@;
        if pretty {
            out.append("    ");
        }
        push_decimal(&mut out, indices[i]);
        if pretty {
            out.append(",\n");
        } else if i + 1 < indices.len() {
            out.append(", ");
        }
        proof {
            assert(out@ =~= before + entry(indices@, i as int, pretty));
            assert(opening + entries(indices@, i as int, pretty) + entry(indices@, i as int, pretty)
                =~= opening + entries(indices@, i + 1, pretty));
        }
        i += 1;
    }
    out.append("}");
    out
}

} // verus!
