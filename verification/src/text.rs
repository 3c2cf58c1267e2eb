//! Text forms of attribute payloads and the name rules of the DOM layer.

use vstd::prelude::*;

verus! {

/// The character that writes the decimal digit `d`.
pub open spec fn digit_char(d: int) -> char {
    if d == 0 {
        '0'
    } else if d == 1 {
        '1'
    } else if d == 2 {
        '2'
    } else if d == 3 {
        '3'
    } else if d == 4 {
        '4'
    } else if d == 5 {
        '5'
    } else if d == 6 {
        '6'
    } else if d == 7 {
        '7'
    } else if d == 8 {
        '8'
    } else {
        '9'
    }
}

/// The decimal digits of a natural number, most significant first, without
/// leading zeros.
pub open spec fn digits(n: nat) -> Seq<char>
    decreases n,
{
    if n < 10 {
        seq![digit_char(n as int)]
    } else {
        digits(n / 10).push(digit_char((n % 10) as int))
    }
}

/// The decimal form of an integer: a minus sign for a negative number, then
/// the digits of its magnitude.
pub open spec fn decimal(n: int) -> Seq<char> {
    if n < 0 {
        seq!['-'] + digits((-n) as nat)
    } else {
        digits(n as nat)
    }
}

fn digit_text(d: u64) -> (t: &'static str)
    requires
        d < 10,
    ensures
        t@ == seq![digit_char(d as int)],
{
    proof {
        reveal_strlit("0");
        reveal_strlit("1");
        reveal_strlit("2");
        reveal_strlit("3");
        reveal_strlit("4");
        reveal_strlit("5");
        reveal_strlit("6");
        reveal_strlit("7");
        reveal_strlit("8");
        reveal_strlit("9");
    }
    let t = if d == 0 {
        "0"
    } else if d == 1 {
        "1"
    } else if d == 2 {
        "2"
    } else if d == 3 {
        "3"
    } else if d == 4 {
        "4"
    } else if d == 5 {
        "5"
    } else if d == 6 {
        "6"
    } else if d == 7 {
        "7"
    } else if d == 8 {
        "8"
    } else {
        "9"
    };
    assert(t@ =~= seq![digit_char(d as int)]);
    t
}

fn append_digits(out: &mut String, m: u64)
    ensures
        final(out)@ == old(out)@ + digits(m as nat),
    decreases m,
{
    if m >= 10 {
        append_digits(out, m / 10);
    }
    out.append(digit_text(m % 10));
    assert(out@ =~= old(out)@ + digits(m as nat));
}

/// Writes an integer in decimal.
pub fn write_decimal(n: i64) -> (text: String)
    ensures
        text@ == decimal(n as int),
{
    let mut out = String::new();
    if n < 0 {
        proof {
            reveal_strlit("-");
        }
        out.append("-");
        let m: u64 = ((-(n + 1)) as u64) + 1;
        append_digits(&mut out, m);
        assert(out@ =~= decimal(n as int));
    } else {
        append_digits(&mut out, n as u64);
        assert(out@ =~= decimal(n as int));
    }
    out
}

/// Whether the element of the library accepts `c` inside an attribute
/// name: anything but ASCII whitespace, NUL, `/`, `=` and `>`. A node in a
/// browser may refuse more; what it refuses, the injector is told.
pub open spec fn name_char(c: char) -> bool {
    c != '\t' && c != '\n' && c != '\x0C' && c != '\r' && c != ' ' && c != '\0' && c != '/'
        && c != '=' && c != '>'
}

/// Whether the element of the library accepts `s` as an attribute name: it
/// is not empty and every character of it is a name character.
pub open spec fn valid_name(s: Seq<char>) -> bool {
    s.len() > 0 && forall|i: int| 0 <= i < s.len() ==> name_char(#[trigger] s[i])
}

fn is_name_char(c: char) -> (ok: bool)
    ensures
        ok == name_char(c),
{
    c != '\t' && c != '\n' && c != '\x0C' && c != '\r' && c != ' ' && c != '\0' && c != '/'
        && c != '=' && c != '>'
}

/// Decides whether the element of the library accepts `s` as an attribute
/// name.
pub fn is_valid_name(s: &str) -> (ok: bool)
    ensures
        ok == valid_name(s@),
{
    let mut all = true;
    let mut seen: bool = false;
    for c in it: s.chars()
        invariant
            it.seq() == s@,
            seen == (it.index() > 0),
            all == (forall|i: int| 0 <= i < it.index() ==> name_char(#[trigger] s@[i])),
    {
        seen = true;
        if !is_name_char(c) {
            all = false;
        }
    }
    seen && all
}

/// Whether `c` may stand in an enumerated token: an ASCII lower-case letter,
/// an ASCII digit or a hyphen.
pub open spec fn token_char(c: char) -> bool {
    ('a' <= c && c <= 'z') || ('0' <= c && c <= '9') || c == '-'
}

/// Whether `s` is an enumerated token as it is emitted: not empty, and made
/// of token characters only.
pub open spec fn valid_token(s: Seq<char>) -> bool {
    s.len() > 0 && forall|i: int| 0 <= i < s.len() ==> token_char(#[trigger] s[i])
}

fn is_token_char(c: char) -> (ok: bool)
    ensures
        ok == token_char(c),
{
    ('a' <= c && c <= 'z') || ('0' <= c && c <= '9') || c == '-'
}

/// Decides whether `s` is an enumerated token as it is emitted.
pub fn is_valid_token(s: &str) -> (ok: bool)
    ensures
        ok == valid_token(s@),
{
    let mut all = true;
    let mut seen: bool = false;
    for c in it: s.chars()
        invariant
            it.seq() == s@,
            seen == (it.index() > 0),
            all == (forall|i: int| 0 <= i < it.index() ==> token_char(#[trigger] s@[i])),
    {
        seen = true;
        if !is_token_char(c) {
            all = false;
        }
    }
    seen && all
}

/// The text of a true/false value: the literal `true` or `false`.
pub open spec fn flag_text(b: bool) -> Seq<char> {
    if b {
        "true"@
    } else {
        "false"@
    }
}

/// Writes a true/false value as the literal `true` or `false`.
pub fn write_flag(b: bool) -> (text: String)
    ensures
        text@ == flag_text(b),
{
    if b {
        String::from_str("true")
    } else {
        String::from_str("false")
    }
}

} // verus!
