//! The startup banners of the two executables, built as plain lines of
//! text; the caller prints them. Port numbers are rendered by a verified
//! decimal formatter.

use vstd::prelude::*;
use vstd::string::StringExecFns;

use crate::{SERVER_ADDRESS, VERSION};

verus! {

/// The character of one decimal digit.
pub open spec fn spec_digit_char(d: nat) -> char
    recommends
        d < 10,
{
    (48 + d) as char
}

/// The decimal digits of `n`, most significant first, no leading zeros
/// (a single `'0'` for zero).
pub open spec fn spec_decimal_digits(n: nat) -> Seq<char>
    decreases n,
{
    if n < 10 {
        seq![spec_digit_char(n)]
    } else {
        spec_decimal_digits(n / 10) + seq![spec_digit_char(n % 10)]
    }
}

/// The one-character string of a decimal digit.
fn digit_str(d: u16) -> (r: &'static str)
    requires
        d < 10,
    ensures
        r@ == seq![spec_digit_char(d as nat)],
{
    if d == 0 {
        proof {
            reveal_strlit("0");
        }
        "0"
    } else if d == 1 {
        proof {
            reveal_strlit("1");
        }
        "1"
    } else if d == 2 {
        proof {
            reveal_strlit("2");
        }
        "2"
    } else if d == 3 {
        proof {
            reveal_strlit("3");
        }
        "3"
    } else if d == 4 {
        proof {
            reveal_strlit("4");
        }
        "4"
    } else if d == 5 {
        proof {
            reveal_strlit("5");
        }
        "5"
    } else if d == 6 {
        proof {
            reveal_strlit("6");
        }
        "6"
    } else if d == 7 {
        proof {
            reveal_strlit("7");
        }
        "7"
    } else if d == 8 {
        proof {
            reveal_strlit("8");
        }
        "8"
    } else {
        proof {
            reveal_strlit("9");
        }
        "9"
    }
}

/// Renders a port number in decimal.
pub fn u16_to_decimal(x: u16) -> (s: String)
    ensures
        s@ == spec_decimal_digits(x as nat),
    decreases x,
{
    let low = x % 10;
    let rest = x / 10;
    let d = digit_str(low);
    if rest == 0 {
        d.to_owned()
    } else {
        let prefix = u16_to_decimal(rest);
        prefix.concat(d)
    }
}

/// The agent's startup banner, one line per entry.
pub open spec fn spec_agent_info_lines(name: Seq<char>, port: u16) -> Seq<Seq<char>> {
    seq![
        "-------------------------------------------------"@,
        "\tRust Action Dispatch Agent"@,
        "-------------------------------------------------"@,
        "\tAgent Name: "@ + name + " Port: "@ + spec_decimal_digits(port as nat),
        "-------------------------------------------------"@,
    ]
}

/// The banner an agent shows at startup: its name and listen port framed
/// by rules. The caller logs the lines.
pub fn display_agent_info(name: &String, port: u16) -> (lines: Vec<String>)
    ensures
        lines.deep_view() == spec_agent_info_lines(name@, port),
{
    let rule = "-------------------------------------------------";
    let mut lines: Vec<String> = Vec::new();
    lines.push(rule.to_owned());
    lines.push("\tRust Action Dispatch Agent".to_owned());
    lines.push(rule.to_owned());
    let mut detail = "\tAgent Name: ".to_owned();
    detail.append(name.as_str());
    detail.append(" Port: ");
    let port_text = u16_to_decimal(port);
    detail.append(port_text.as_str());
    proof {
        reveal_strlit("\tAgent Name: ");
        reveal_strlit(" Port: ");
    }
    lines.push(detail);
    lines.push(rule.to_owned());
    assert(lines.deep_view() =~= spec_agent_info_lines(name@, port));
    lines
}

/// The coordinator's startup banner, one line per entry.
pub open spec fn spec_central_command_info_lines() -> Seq<Seq<char>> {
    seq![
        "-------------------------------------------------"@,
        "\tRust Action Dispatch Central Command"@,
        "-------------------------------------------------"@,
        "\tVersion: "@ + VERSION@ + " Hosted at "@ + SERVER_ADDRESS@,
        "-------------------------------------------------"@,
    ]
}

/// The banner the coordinator shows at startup: release tag and listen
/// address framed by rules. The caller logs the lines.
pub fn display_central_command_info() -> (lines: Vec<String>)
    ensures
        lines.deep_view() == spec_central_command_info_lines(),
{
    let rule = "-------------------------------------------------";
    let mut lines: Vec<String> = Vec::new();
    lines.push(rule.to_owned());
    lines.push("\tRust Action Dispatch Central Command".to_owned());
    lines.push(rule.to_owned());
    let mut detail = "\tVersion: ".to_owned();
    detail.append(VERSION);
    detail.append(" Hosted at ");
    detail.append(SERVER_ADDRESS);
    proof {
        reveal_strlit("\tVersion: ");
        reveal_strlit(" Hosted at ");
    }
    lines.push(detail);
    lines.push(rule.to_owned());
    assert(lines.deep_view() =~= spec_central_command_info_lines());
    lines
}

} // verus!
