//! Stable names of sequencer ports.
//!
//! A name is what survives a restart: the display name of the owning client,
//! a colon, and the display name of the port. When the registry cannot tell
//! either of them, the name falls back to the two ids in decimal.

use crate::address::Address;
use vstd::prelude::*;

verus! {

/// The character that stands for the decimal digit `d`.
pub open spec fn digit_char(d: nat) -> char {
    if d == 0 {
        '0'
    } else if d == 1 {
        '1'
    } else if d == 2 {
        '2'
    } else if d == 3 {
        '3'
    } else if d == 4 {
        '4'
    } else if d == 5 {
        '5'
    } else if d == 6 {
        '6'
    } else if d == 7 {
        '7'
    } else if d == 8 {
        '8'
    } else {
        '9'
    }
}

/// The decimal digits of `n`, most significant first, without leading zeros.
pub open spec fn decimal_digits(n: nat) -> Seq<char>
    decreases n,
{
    if n < 10 {
        seq![digit_char(n)]
    } else {
        decimal_digits(n / 10).push(digit_char(n % 10))
    }
}

/// The decimal form of `i`, with a leading minus sign when it is negative.
pub open spec fn decimal(i: int) -> Seq<char> {
    if i < 0 {
        seq!['-'] + decimal_digits((-i) as nat)
    } else {
        decimal_digits(i as nat)
    }
}

/// The name built from the two display names.
pub open spec fn display_name(client: Seq<char>, port: Seq<char>) -> Seq<char> {
    client + seq![':'] + port
}

/// The fallback name of an address: its two ids in decimal.
pub open spec fn numeric_name(addr: Address) -> Seq<char> {
    decimal(addr.client as int) + seq![':'] + decimal(addr.port as int)
}

/// The name of the port at `addr`, given what the registry answered when it
/// was asked for the display names. A missing answer for either of them
/// gives the numeric fallback.
pub open spec fn resolved_name(
    addr: Address,
    client: Option<Seq<char>>,
    port: Option<Seq<char>>,
) -> Seq<char> {
    match (client, port) {
        (Some(c), Some(p)) => display_name(c, p),
        _ => numeric_name(addr),
    }
}

fn digit_str(d: u32) -> (s: &'static str)
    requires
        d < 10,
    ensures
        s@ == seq![digit_char(d as nat)],
{
    proof {
        reveal_strlit("0");
        reveal_strlit("1");
        reveal_strlit("2");
        reveal_strlit("3");
        reveal_strlit("4");
        reveal_strlit("5");
        reveal_strlit("6");
        reveal_strlit("7");
        reveal_strlit("8");
        reveal_strlit("9");
    }
    let s = match d {
        0 => "0",
        1 => "1",
        2 => "2",
        3 => "3",
        4 => "4",
        5 => "5",
        6 => "6",
        7 => "7",
        8 => "8",
        _ => "9",
    };
    assert(s@ =~= seq![digit_char(d as nat)]);
    s
}

fn push_decimal_digits(out: &mut String, n: u32)
    ensures
        final(out)@ == old(out)@ + decimal_digits(n as nat),
    decreases n,
{
    if n >= 10 {
        push_decimal_digits(out, n / 10);
    }
    out.append(digit_str(n % 10));
    assert(out@ =~= old(out)@ + decimal_digits(n as nat));
}

/// Writes `i` in decimal.
pub fn decimal_string(i: i32) -> (s: String)
    ensures
        s@ == decimal(i as int),
{
    let mut s = String::new();
    let wide: i64 = i as i64;
    if wide < 0 {
        proof {
            reveal_strlit("-");
        }
        s.append("-");
        let magnitude: u32 = (-wide) as u32;
        push_decimal_digits(&mut s, magnitude);
    } else {
        push_decimal_digits(&mut s, wide as u32);
    }
    assert(s@ =~= decimal(i as int));
    s
}

/// Joins the two display names with a colon.
pub fn display_name_string(client: &str, port: &str) -> (name: String)
    ensures
        name@ == display_name(client@, port@),
{
    proof {
        reveal_strlit(":");
    }
    let mut name = String::new();
    name.append(client);
    name.append(":");
    name.append(port);
    assert(name@ =~= display_name(client@, port@));
    name
}

/// Writes the numeric fallback name of `addr`.
pub fn numeric_name_string(addr: Address) -> (name: String)
    ensures
        name@ == numeric_name(addr),
{
    proof {
        reveal_strlit(":");
    }
    let mut name = decimal_string(addr.client);
    name.append(":");
    let port = decimal_string(addr.port);
    name.append(port.as_str());
    assert(name@ =~= numeric_name(addr));
    name
}

} // verus!
