//! Rendering a result: the requested counts in the canonical order
//! Lines, Bytes, Words, Chars, then the file name, as one string.

use vstd::prelude::*;
use vstd::string::StrSliceExecFns;
use vstd::string::StringExecFns;

use crate::metrics::CountResult;

verus! {

/// The decimal digit character for one digit value.
pub open spec fn digit_char(d: int) -> char {
    if d == 0 {
        '0'
    } else if d == 1 {
        '1'
    } else if d == 2 {
        '2'
    } else if d == 3 {
        '3'
    } else if d == 4 {
        '4'
    } else if d == 5 {
        '5'
    } else if d == 6 {
        '6'
    } else if d == 7 {
        '7'
    } else if d == 8 {
        '8'
    } else {
        '9'
    }
}

/// The decimal representation of a number, most significant digit first,
/// without leading zeros (zero itself is "0").
pub open spec fn dec_rep(n: nat) -> Seq<char>
    decreases n,
{
    if n < 10 {
        seq![digit_char(n as int)]
    } else {
        dec_rep(n / 10) + seq![digit_char((n % 10) as int)]
    }
}

/// The values of a result in canonical order, only the present ones.
pub open spec fn result_values(r: CountResult) -> Seq<nat> {
    (match r.lines {
        Some(v) => seq![v as nat],
        None => seq![],
    }) + (match r.bytes {
        Some(v) => seq![v as nat],
        None => seq![],
    }) + (match r.words {
        Some(v) => seq![v as nat],
        None => seq![],
    }) + (match r.chars {
        Some(v) => seq![v as nat],
        None => seq![],
    })
}

/// The values joined by single spaces, in decimal.
pub open spec fn joined(vals: Seq<nat>) -> Seq<char>
    decreases vals.len(),
{
    if vals.len() == 0 {
        Seq::empty()
    } else if vals.len() == 1 {
        dec_rep(vals[0])
    } else {
        joined(vals.drop_last()) + seq![' '] + dec_rep(vals.last())
    }
}

/// The full output line: the joined values, a space, the file name, and a
/// terminating newline.
pub open spec fn spec_format(r: CountResult, file: Seq<char>) -> Seq<char> {
    joined(result_values(r)) + seq![' '] + file + seq!['\n']
}

/// The single digit `d`, as a string slice.
fn digit_str(d: usize) -> (r: &'static str)
    requires
        d < 10,
    ensures
        r@ == seq![digit_char(d as int)],
{
    if d == 0 {
        proof {
            reveal_strlit("0");
        }
        assert(("0")@ =~= seq![digit_char(0)]);
        "0"
    } else if d == 1 {
        proof {
            reveal_strlit("1");
        }
        assert(("1")@ =~= seq![digit_char(1)]);
        "1"
    } else if d == 2 {
        proof {
            reveal_strlit("2");
        }
        assert(("2")@ =~= seq![digit_char(2)]);
        "2"
    } else if d == 3 {
        proof {
            reveal_strlit("3");
        }
        assert(("3")@ =~= seq![digit_char(3)]);
        "3"
    } else if d == 4 {
        proof {
            reveal_strlit("4");
        }
        assert(("4")@ =~= seq![digit_char(4)]);
        "4"
    } else if d == 5 {
        proof {
            reveal_strlit("5");
        }
        assert(("5")@ =~= seq![digit_char(5)]);
        "5"
    } else if d == 6 {
        proof {
            reveal_strlit("6");
        }
        assert(("6")@ =~= seq![digit_char(6)]);
        "6"
    } else if d == 7 {
        proof {
            reveal_strlit("7");
        }
        assert(("7")@ =~= seq![digit_char(7)]);
        "7"
    } else if d == 8 {
        proof {
            reveal_strlit("8");
        }
        assert(("8")@ =~= seq![digit_char(8)]);
        "8"
    } else {
        proof {
            reveal_strlit("9");
        }
        assert(("9")@ =~= seq![digit_char(9)]);
        "9"
    }
}

/// Renders a number in decimal.
pub fn usize_to_string(n: usize) -> (r: String)
    ensures
        r@ == dec_rep(n as nat),
    decreases n,
{
    if n < 10 {
        digit_str(n).to_owned()
    } else {
        let mut s = usize_to_string(n / 10);
        s.append(digit_str(n % 10));
        s
    }
}

/// Appending one more value to a joined rendering appends a separating
/// space exactly when a value stands there already.
proof fn lemma_joined_push(vals: Seq<nat>, v: nat)
    ensures
        vals.len() == 0 ==> joined(vals.push(v)) == dec_rep(v),
        vals.len() > 0 ==> joined(vals.push(v)) == joined(vals) + seq![' '] + dec_rep(v),
{
    let pushed = vals.push(v);
    assert(pushed.drop_last() =~= vals);
    assert(pushed.last() == v);
    if vals.len() == 0 {
        assert(joined(pushed) == dec_rep(pushed[0]));
    }
}

/// Renders the result: the requested counts in the order Lines, Bytes,
/// Words, Chars, space-separated, then a space, the file name, and a
/// newline. Which flags were given, and in what order, does not matter:
/// equal results render equally.
#[verifier::rlimit(50)]
pub fn format_result(result: &CountResult, file_name: &str) -> (r: String)
    ensures
        r@ == spec_format(*result, file_name@),
{
    let mut out = String::new();
    let mut has_printed = false;
    let ghost mut vals: Seq<nat> = Seq::empty();
    proof {
        reveal_strlit(" ");
        reveal_strlit("\n");
    }
    if let Some(v) = result.lines {
        if has_printed {
            out.append(" ");
        }
        let rendered = usize_to_string(v);
        out.append(rendered.as_str());
        has_printed = true;
        proof {
            lemma_joined_push(vals, v as nat);
            vals = vals.push(v as nat);
        }
        assert(out@ == joined(vals));
    }
    if let Some(v) = result.bytes {
        if has_printed {
            out.append(" ");
        }
        let rendered = usize_to_string(v);
        out.append(rendered.as_str());
        has_printed = true;
        proof {
            lemma_joined_push(vals, v as nat);
            vals = vals.push(v as nat);
        }
        assert(out@ == joined(vals));
    }
    if let Some(v) = result.words {
        if has_printed {
            out.append(" ");
        }
        let rendered = usize_to_string(v);
        out.append(rendered.as_str());
        has_printed = true;
        proof {
            lemma_joined_push(vals, v as nat);
            vals = vals.push(v as nat);
        }
        assert(out@ == joined(vals));
    }
    if let Some(v) = result.chars {
        if has_printed {
            out.append(" ");
        }
        let rendered = usize_to_string(v);
        out.append(rendered.as_str());
        has_printed = true;
        proof {
            lemma_joined_push(vals, v as nat);
            vals = vals.push(v as nat);
        }
        assert(out@ == joined(vals));
    }
    assert(vals =~= result_values(*result));
    out.append(" ");
    out.append(file_name);
    out.append("\n");
    assert(out@ =~= spec_format(*result, file_name@));
    out
}

} // verus!
