//! Exact textual renderings of numbers and protocol tags used in diagnostics.
use vstd::prelude::*;
use vstd::string::StringExecFns;

use crate::protocol::WireTag;

verus! {

/// The decimal digit character for `d < 10`.
pub open spec fn digit_char(d: nat) -> char {
    if d == 0 {
        '0'
    } else if d == 1 {
        '1'
    } else if d == 2 {
        '2'
    } else if d == 3 {
        '3'
    } else if d == 4 {
        '4'
    } else if d == 5 {
        '5'
    } else if d == 6 {
        '6'
    } else if d == 7 {
        '7'
    } else if d == 8 {
        '8'
    } else {
        '9'
    }
}

/// The decimal rendering of `n`, without leading zeros.
pub open spec fn decimal(n: nat) -> Seq<char>
    decreases n,
{
    if n < 10 {
        seq![digit_char(n)]
    } else {
        decimal(n / 10).push(digit_char(n % 10))
    }
}

/// The decimal rendering of `i`, with a leading `-` when negative.
pub open spec fn signed_decimal(i: int) -> Seq<char> {
    if i < 0 {
        seq!['-'] + decimal((-i) as nat)
    } else {
        decimal(i as nat)
    }
}

/// How a tag reads in diagnostics: `[NEVER]`, `[FOREVER]` or `[<offset>ns+<microstep>]`.
pub open spec fn tag_text(t: WireTag) -> Seq<char> {
    match t {
        WireTag::Never => seq!['[', 'N', 'E', 'V', 'E', 'R', ']'],
        WireTag::Forever => seq!['[', 'F', 'O', 'R', 'E', 'V', 'E', 'R', ']'],
        WireTag::Finite { offset_ns, microstep } => seq!['['] + signed_decimal(offset_ns as int) + seq![
            'n',
            's',
            '+',
        ] + decimal(microstep as nat) + seq![']'],
    }
}

fn digit_str(d: u128) -> (s: &'static str)
    requires
        d < 10,
    ensures
        s@ == seq![digit_char(d as nat)],
{
    proof {
        reveal_strlit("0");
        reveal_strlit("1");
        reveal_strlit("2");
        reveal_strlit("3");
        reveal_strlit("4");
        reveal_strlit("5");
        reveal_strlit("6");
        reveal_strlit("7");
        reveal_strlit("8");
        reveal_strlit("9");
    }
    if d == 0 {
        "0"
    } else if d == 1 {
        "1"
    } else if d == 2 {
        "2"
    } else if d == 3 {
        "3"
    } else if d == 4 {
        "4"
    } else if d == 5 {
        "5"
    } else if d == 6 {
        "6"
    } else if d == 7 {
        "7"
    } else if d == 8 {
        "8"
    } else {
        "9"
    }
}

/// The decimal rendering of `n`.
pub fn render_unsigned(n: u128) -> (s: String)
    ensures
        s@ == decimal(n as nat),
    decreases n,
{
    if n < 10 {
        digit_str(n).to_owned()
    } else {
        let mut s = render_unsigned(n / 10);
        s.append(digit_str(n % 10));
        s
    }
}

/// The decimal rendering of `i`.
pub fn render_signed(i: i128) -> (s: String)
    ensures
        s@ == signed_decimal(i as int),
{
    if i < 0 {
        let magnitude: u128 = if i == i128::MIN {
            170141183460469231731687303715884105728u128
        } else {
            (-i) as u128
        };
        let mut s = "-".to_owned();
        proof {
            reveal_strlit("-");
        }
        let digits = render_unsigned(magnitude);
        s.append(digits.as_str());
        s
    } else {
        render_unsigned(i as u128)
    }
}

/// How `t` reads in diagnostics.
pub fn render_tag(t: WireTag) -> (s: String)
    ensures
        s@ == tag_text(t),
{
    proof {
        reveal_strlit("[NEVER]");
        reveal_strlit("[FOREVER]");
        reveal_strlit("[");
        reveal_strlit("ns+");
        reveal_strlit("]");
    }
    match t {
        WireTag::Never => "[NEVER]".to_owned(),
        WireTag::Forever => "[FOREVER]".to_owned(),
        WireTag::Finite { offset_ns, microstep } => {
            let mut s = "[".to_owned();
            let offset = render_signed(offset_ns);
            s.append(offset.as_str());
            s.append("ns+");
            let step = render_unsigned(microstep as u128);
            s.append(step.as_str());
            s.append("]");
            s
        },
    }
}

} // verus!
