//! The text that the proxy shows when it starts.

use crate::config::AppConfig;
use vstd::prelude::*;

verus! {

/// The character of a decimal digit.
pub open spec fn digit(value: nat) -> char {
    if value == 0 {
        '0'
    } else if value == 1 {
        '1'
    } else if value == 2 {
        '2'
    } else if value == 3 {
        '3'
    } else if value == 4 {
        '4'
    } else if value == 5 {
        '5'
    } else if value == 6 {
        '6'
    } else if value == 7 {
        '7'
    } else if value == 8 {
        '8'
    } else {
        '9'
    }
}

/// A number in decimal digits, without leading zeros.
pub open spec fn decimal(value: nat) -> Seq<char>
    decreases value,
{
    if value < 10 {
        seq![digit(value)]
    } else {
        decimal(value / 10).push(digit(value % 10))
    }
}

/// The ports as they are shown: each in decimal, with two blanks on either
/// side.
pub open spec fn ports_text(ports: Seq<u16>) -> Seq<char>
    decreases ports.len(),
{
    if ports.len() == 0 {
        Seq::empty()
    } else {
        ports_text(ports.drop_last()) + "  "@ + decimal(ports.last() as nat) + "  "@
    }
}

/// The targets as they are shown: each on a line of its own, indented.
pub open spec fn targets_text(targets: Seq<String>) -> Seq<char>
    decreases targets.len(),
{
    if targets.len() == 0 {
        Seq::empty()
    } else {
        targets_text(targets.drop_last()) + "              "@ + targets.last()@ + "\n"@
    }
}

/// The text that is shown at the start: the name of the application, the
/// ports it listens on, and the addresses it forwards to.
pub open spec fn banner(name: Seq<char>, ports: Seq<u16>, targets: Seq<String>) -> Seq<char> {
    "    App : "@ + name + "\n\n"@ + "    listening on : ["@ + ports_text(ports) + "]\n\n"@
        + "    forwarding to :\n"@ + targets_text(targets)
}

fn digit_text(value: u16) -> (text: &'static str)
    requires
        value < 10,
    ensures
        text@ == seq![digit(value as nat)],
{
    proof {
        reveal_strlit("0");
        reveal_strlit("1");
        reveal_strlit("2");
        reveal_strlit("3");
        reveal_strlit("4");
        reveal_strlit("5");
        reveal_strlit("6");
        reveal_strlit("7");
        reveal_strlit("8");
        reveal_strlit("9");
    }
    let text = if value == 0 {
        "0"
    } else if value == 1 {
        "1"
    } else if value == 2 {
        "2"
    } else if value == 3 {
        "3"
    } else if value == 4 {
        "4"
    } else if value == 5 {
        "5"
    } else if value == 6 {
        "6"
    } else if value == 7 {
        "7"
    } else if value == 8 {
        "8"
    } else {
        "9"
    };
    assert(text@ =~= seq![digit(value as nat)]);
    text
}

/// A port in decimal digits.
pub fn port_text(port: u16) -> (text: String)
    ensures
        text@ == decimal(port as nat),
    decreases port,
{
    if port < 10 {
        String::from_str(digit_text(port))
    } else {
        let mut text = port_text(port / 10);
        text.append(digit_text(port % 10));
        assert(text@ =~= decimal(port as nat));
        text
    }
}

/// The text to show when the proxy starts on `config`; `targets` holds the
/// addresses of its targets as they are to be shown, in their order.
pub fn display_app(config: &AppConfig, targets: &Vec<String>) -> (text: String)
    ensures
        text@ == banner(config.name@, config.listen_on@, targets@),
{
    let mut text = String::from_str("    App : ");
    text.append(config.name.as_str());
    text.append("\n\n");
    text.append("    listening on : [");
    let ghost head = text@;
    let mut i: usize = 0;
    while i < config.listen_on.len()
        invariant
            i <= config.listen_on.len(),
            text@ == head + ports_text(config.listen_on@.take(i as int)),
        decreases config.listen_on.len() - i,
    {
        let ghost before = config.listen_on@.take(i as int);
        let ghost after = config.listen_on@.take(i + 1);
        assert(after.drop_last() == before);
        text.append("  ");
        let port = port_text(config.listen_on[i]);
        text.append(port.as_str());
        text.append("  ");
        assert(text@ =~= head + ports_text(after));
        i += 1;
    }
    assert(config.listen_on@.take(config.listen_on.len() as int) == config.listen_on@);
    text.append("]\n\n");
    text.append("    forwarding to :\n");
    let ghost top = text@;
    let mut j: usize = 0;
    while j < targets.len()
        invariant
            j <= targets.len(),
            text@ == top + targets_text(targets@.take(j as int)),
        decreases targets.len() - j,
    {
        let ghost before = targets@.take(j as int);
        let ghost after = targets@.take(j + 1);
        assert(after.drop_last() == before);
        text.append("              ");
        text.append(targets[j].as_str());
        text.append("\n");
        assert(text@ =~= top + targets_text(after));
        j += 1;
    }
    assert(targets@.take(targets.len() as int) == targets@);
    assert(text@ =~= banner(config.name@, config.listen_on@, targets@));
    text
}

} // verus!
