//! The few pieces of text that the library writes itself: decimal numbers
//! and the command line of a session.

use vstd::prelude::*;
use vstd::string::StringExecFns;

verus! {

/// The character of the digit `d`.
pub open spec fn digit_char(d: nat) -> char {
    if d == 0 {
        '0'
    } else if d == 1 {
        '1'
    } else if d == 2 {
        '2'
    } else if d == 3 {
        '3'
    } else if d == 4 {
        '4'
    } else if d == 5 {
        '5'
    } else if d == 6 {
        '6'
    } else if d == 7 {
        '7'
    } else if d == 8 {
        '8'
    } else {
        '9'
    }
}

/// The digits of `n` in base ten, without leading zeros.
pub open spec fn decimal(n: nat) -> Seq<char>
    decreases n,
{
    if n < 10 {
        seq![digit_char(n)]
    } else {
        decimal(n / 10).push(digit_char(n % 10))
    }
}

fn digit_str(d: u8) -> (r: &'static str)
    requires
        d < 10,
    ensures
        r@ == seq![digit_char(d as nat)],
{
    proof {
        reveal_strlit("0");
        reveal_strlit("1");
        reveal_strlit("2");
        reveal_strlit("3");
        reveal_strlit("4");
        reveal_strlit("5");
        reveal_strlit("6");
        reveal_strlit("7");
        reveal_strlit("8");
        reveal_strlit("9");
    }
    let r = if d == 0 {
        "0"
    } else if d == 1 {
        "1"
    } else if d == 2 {
        "2"
    } else if d == 3 {
        "3"
    } else if d == 4 {
        "4"
    } else if d == 5 {
        "5"
    } else if d == 6 {
        "6"
    } else if d == 7 {
        "7"
    } else if d == 8 {
        "8"
    } else {
        "9"
    };
    assert(r@ =~= seq![digit_char(d as nat)]);
    r
}

/// Appends the digits of `n` in base ten to `out`.
pub fn push_decimal(out: &mut String, n: u128)
    ensures
        final(out)@ == old(out)@ + decimal(n as nat),
    decreases n,
{
    if n >= 10 {
        push_decimal(out, n / 10);
    }
    out.append(digit_str((n % 10) as u8));
    assert(out@ =~= old(out)@ + decimal(n as nat));
}

/// What `str::escape_default` makes of a string.
pub uninterp spec fn escape_default_spec(s: Seq<char>) -> Seq<char>;

/// Calls `str::escape_default` of std and collects what it yields. The
/// result is taken to be a function of the characters of `s` alone; nothing
/// else is claimed of it.
#[verifier::external_body]
fn escape_default(s: &str) -> (r: String)
    ensures
        r@ == escape_default_spec(s@),
{
    s.escape_default().to_string()
}

/// The command line that `args` stand for: every argument escaped, each
/// followed by one space.
pub open spec fn command_line_spec(args: Seq<String>) -> Seq<char>
    decreases args.len(),
{
    if args.len() == 0 {
        Seq::empty()
    } else {
        command_line_spec(args.drop_last()) + escape_default_spec(args.last()@) + seq![' ']
    }
}

/// Joins the arguments of a process into one line.
pub fn command_line(args: &Vec<String>) -> (r: String)
    ensures
        r@ == command_line_spec(args@),
{
    let mut out = String::new();
    let mut i: usize = 0;
    proof {
        reveal_strlit(" ");
    }
    while i < args.len()
        invariant
            i <= args.len(),
            out@ == command_line_spec(args@.take(i as int)),
            " "@ == seq![' '],
        decreases args.len() - i,
    {
        let escaped = escape_default(args[i].as_str());
        out.append(escaped.as_str());
        out.append(" ");
        proof {
            let next = args@.take(i + 1);
            assert(next.drop_last() =~= args@.take(i as int));
            assert(next.last() == args@[i as int]);
        }
        i += 1;
    }
    assert(args@.take(args.len() as int) =~= args@);
    out
}

} // verus!
