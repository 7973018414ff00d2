use vstd::prelude::*;
use vstd::string::StringExecFns;

verus! {

/// The character for a single decimal digit.
pub open spec fn digit_char(d: nat) -> char {
    ((48 + d) as u8) as char
}

/// The decimal numeral of `n`, most significant digit first.
pub open spec fn dec_rep(n: nat) -> Seq<char>
    decreases n,
{
    if n < 10 {
        seq![digit_char(n)]
    } else {
        dec_rep(n / 10).push(digit_char(n % 10))
    }
}

/// The message reported when the token stream opens with end-of-file.
pub open spec fn empty_document_msg() -> Seq<char> {
    "empty JSON file"@
}

/// The message reported when a literal-bearing token carries no raw text.
pub open spec fn invalid_token_msg() -> Seq<char> {
    "invalid token"@
}

/// The message reported for a token that violates the grammar, built from
/// its recorded position and, when present, its raw text.
pub open spec fn unexpected_token_msg(position: nat, value: Option<Seq<char>>) -> Seq<char> {
    match value {
        Some(v) => "Unexpected token "@ + v + " at position "@ + dec_rep(position) + "."@,
        None => "Unexpected token at position "@ + dec_rep(position) + "."@,
    }
}

/// Relies on `String::push`: appends exactly the given character to the
/// end of the string.
pub assume_specification[ std::string::String::push ](s: &mut String, ch: char)
    ensures
        final(s)@ == old(s)@.push(ch),
;

/// Appends the decimal numeral of `n` to `out`.
pub fn push_decimal(out: &mut String, n: usize)
    ensures
        final(out)@ == old(out)@ + dec_rep(n as nat),
    decreases n,
{
    if n >= 10 {
        push_decimal(out, n / 10);
    }
    let d: u8 = (n % 10) as u8;
    out.push((48 + d) as char);
    proof {
        assert(out@ =~= old(out)@ + dec_rep(n as nat));
    }
}

/// Builds the unexpected-token message for a position and an optional raw
/// text, exactly as [`unexpected_token_msg`] states it.
pub fn render_unexpected(position: usize, value: Option<&String>) -> (msg: String)
    ensures
        msg@ == unexpected_token_msg(
            position as nat,
            match value {
                Some(v) => Some(v@),
                None => None,
            },
        ),
{
    let mut msg = match value {
        Some(v) => {
            let mut s = String::from_str("Unexpected token ");
            s.append(v.as_str());
            s.append(" at position ");
            s
        },
        None => String::from_str("Unexpected token at position "),
    };
    push_decimal(&mut msg, position);
    msg.push('.');
    proof {
        reveal_strlit(".");
        assert(msg@ =~= unexpected_token_msg(
            position as nat,
            match value {
                Some(v) => Some(v@),
                None => None,
            },
        ));
    }
    msg
}

} // verus!
