//! The decisions of the firewall interface: the choices of its lists, the
//! rule that the forms ask for, and the lines it shows.
use vstd::prelude::*;
use crate::text::{
    chars_of, dec_string, eq_str, lowercase, owned, push_dec, push_str, push_string, string_of,
    to_lowercase, trim, trim_string,
};
use crate::ufw::backend::opt_string;
use crate::ufw::stats::{BlockedEvent, BlockedEventView, ListeningPort, ListeningPortView};
use crate::ufw::types::{action_at, protocol_at, Action, Direction, Protocol, RuleParams};
use crate::ufw::backend::RuleParamsView;

verus! {

/// How many log lines the dashboard reads for each choice of its list.
pub open spec fn log_limit_at(i: u32) -> usize {
    if i == 0 {
        50
    } else if i == 1 {
        100
    } else if i == 2 {
        500
    } else {
        1000
    }
}

/// The number of log lines for a choice of the dashboard's list.
pub fn log_limit(index: u32) -> (n: usize)
    ensures
        n == log_limit_at(index),
{
    if index == 0 {
        50
    } else if index == 1 {
        100
    } else if index == 2 {
        500
    } else {
        1000
    }
}

/// How many of the events are blocked packets.
pub open spec fn blocked_in(es: Seq<BlockedEventView>) -> nat
    decreases es.len(),
{
    if es.len() == 0 {
        0
    } else {
        blocked_in(es.drop_last()) + if es.last().action == "BLOCK"@ {
            1nat
        } else {
            0nat
        }
    }
}

/// The number of blocked packets among the events.
pub fn blocked_count(events: &Vec<BlockedEvent>) -> (n: usize)
    ensures
        n == blocked_in(events@.map_values(|e: BlockedEvent| e@)),
{
    let ghost ev = events@.map_values(|e: BlockedEvent| e@);
    let mut n: usize = 0;
    let mut i: usize = 0;
    while i < events.len()
        invariant
            i <= events.len(),
            ev == events@.map_values(|e: BlockedEvent| e@),
            n == blocked_in(ev.take(i as int)),
            n <= i,
        decreases events.len() - i,
    {
        assert(ev.take(i + 1).drop_last() =~= ev.take(i as int));
        assert(ev.take(i + 1).last() == events@[i as int]@);
        if crate::text::string_is(&events[i].action, "BLOCK") {
            n += 1;
        }
        i += 1;
    }
    assert(ev.take(events.len() as int) =~= ev);
    n
}

/// The log levels in the order of the interface's list.
pub open spec fn logging_level_at(i: u32) -> Seq<char> {
    if i == 0 {
        "off"@
    } else if i == 1 {
        "low"@
    } else if i == 2 {
        "medium"@
    } else if i == 3 {
        "high"@
    } else {
        "full"@
    }
}

/// The log level for a choice of the interface's list.
pub fn logging_level(index: u32) -> (s: &'static str)
    ensures
        s@ == logging_level_at(index),
{
    if index == 0 {
        "off"
    } else if index == 1 {
        "low"
    } else if index == 2 {
        "medium"
    } else if index == 3 {
        "high"
    } else {
        "full"
    }
}

/// The choice of the interface's list for a log level already in lower
/// case; `off` for any other level.
pub open spec fn lower_logging_index(l: Seq<char>) -> u32 {
    if l == "low"@ {
        1
    } else if l == "medium"@ {
        2
    } else if l == "high"@ {
        3
    } else if l == "full"@ {
        4
    } else {
        0
    }
}

/// The choice of the interface's list that a log level stands for, by its
/// lower case.
pub open spec fn logging_index_of(level: Seq<char>) -> u32 {
    lower_logging_index(lowercase(level))
}

/// The choice of the interface's list for a log level in lower case.
pub fn lower_level_index(l: &str) -> (i: u32)
    ensures
        i == lower_logging_index(l@),
{
    let v = chars_of(l);
    assert(v@.subrange(0, v@.len() as int) =~= v@);
    if eq_str(&v, 0, v.len(), "low") {
        1
    } else if eq_str(&v, 0, v.len(), "medium") {
        2
    } else if eq_str(&v, 0, v.len(), "high") {
        3
    } else if eq_str(&v, 0, v.len(), "full") {
        4
    } else {
        0
    }
}

/// The choice of the interface's list for the configured log level.
pub fn logging_index(level: &str) -> (i: u32)
    ensures
        i == logging_index_of(level@),
        crate::text::all_ascii(level@) ==> i == lower_logging_index(
            crate::text::ascii_lowercase(level@),
        ),
{
    let l = to_lowercase(level);
    lower_level_index(l.as_str())
}

/// The port that each service of the add-rule form stands for (none for the
/// custom entry and past the end).
pub open spec fn preset_port_at(i: u32) -> Seq<char> {
    if i == 1 {
        "22"@
    } else if i == 2 {
        "80"@
    } else if i == 3 {
        "443"@
    } else if i == 4 {
        "21"@
    } else if i == 5 {
        "25"@
    } else if i == 6 {
        "110"@
    } else if i == 7 {
        "143"@
    } else if i == 8 {
        "53"@
    } else if i == 9 {
        "3306"@
    } else if i == 10 {
        "5432"@
    } else if i == 11 {
        "3389"@
    } else if i == 12 {
        "5900"@
    } else {
        ""@
    }
}

/// The port of a service of the add-rule form.
pub fn preset_port(index: u32) -> (s: &'static str)
    ensures
        s@ == preset_port_at(index),
{
    if index == 1 {
        "22"
    } else if index == 2 {
        "80"
    } else if index == 3 {
        "443"
    } else if index == 4 {
        "21"
    } else if index == 5 {
        "25"
    } else if index == 6 {
        "110"
    } else if index == 7 {
        "143"
    } else if index == 8 {
        "53"
    } else if index == 9 {
        "3306"
    } else if index == 10 {
        "5432"
    } else if index == 11 {
        "3389"
    } else if index == 12 {
        "5900"
    } else {
        ""
    }
}

/// A field of the form: none when it is blank, else as typed.
pub open spec fn optional_field(text: Seq<char>) -> Option<Seq<char>> {
    if trim(text).len() == 0 {
        None
    } else {
        Some(text)
    }
}

/// The rule that the add-rule form asks for: none when the port is blank;
/// the direction is `in` for the first choice and `out` otherwise.
pub open spec fn form_rule(
    port: Seq<char>,
    action_index: u32,
    direction_index: u32,
    protocol_index: u32,
    from_text: Seq<char>,
    to_text: Seq<char>,
) -> Option<RuleParamsView> {
    if trim(port).len() == 0 {
        None
    } else {
        Some(
            RuleParamsView {
                port,
                action: action_at(action_index),
                direction: Some(
                    if direction_index == 0 {
                        Direction::In
                    } else {
                        Direction::Out
                    },
                ),
                protocol: Some(protocol_at(protocol_index)),
                from: optional_field(from_text),
                to: optional_field(to_text),
            },
        )
    }
}

fn optional_field_exec(text: &str) -> (r: Option<String>)
    ensures
        opt_string(r) == optional_field(text@),
{
    let t = trim_string(text);
    if t.as_str().is_empty() {
        None
    } else {
        Some(owned(text))
    }
}

/// The rule that the add-rule form asks for.
pub fn rule_from_form(
    port: &str,
    action_index: u32,
    direction_index: u32,
    protocol_index: u32,
    from_text: &str,
    to_text: &str,
) -> (r: Option<RuleParams>)
    ensures
        match r {
            Some(p) => form_rule(
                port@,
                action_index,
                direction_index,
                protocol_index,
                from_text@,
                to_text@,
            ) == Some(p@),
            None => form_rule(
                port@,
                action_index,
                direction_index,
                protocol_index,
                from_text@,
                to_text@,
            ) is None,
        },
{
    let t = trim_string(port);
    if t.as_str().is_empty() {
        return None;
    }
    let direction = if direction_index == 0 {
        Direction::In
    } else {
        Direction::Out
    };
    Some(
        RuleParams {
            port: owned(port),
            action: Action::from_index(action_index),
            direction: Some(direction),
            protocol: Some(Protocol::from_index(protocol_index)),
            from: optional_field_exec(from_text),
            to: optional_field_exec(to_text),
        },
    )
}

/// The rule that the quick entry of the profiles page asks for: allow the
/// port, trimmed; none when it is blank.
pub open spec fn quick_rule(port: Seq<char>) -> Option<RuleParamsView> {
    if trim(port).len() == 0 {
        None
    } else {
        Some(
            RuleParamsView {
                port: trim(port),
                action: Action::Allow,
                direction: None,
                protocol: None,
                from: None,
                to: None,
            },
        )
    }
}

/// The rule that the quick entry asks for.
pub fn quick_add_rule(port: &str) -> (r: Option<RuleParams>)
    ensures
        match r {
            Some(p) => quick_rule(port@) == Some(p@),
            None => quick_rule(port@) is None,
        },
{
    let t = trim_string(port);
    if t.as_str().is_empty() {
        None
    } else {
        Some(
            RuleParams {
                port: t,
                action: Action::Allow,
                direction: None,
                protocol: None,
                from: None,
                to: None,
            },
        )
    }
}

/// How a listening socket reads: `<port>/<protocol> <address>`, then the
/// process in parentheses when it is known.
pub open spec fn listening_title_of(lp: ListeningPortView) -> Seq<char> {
    dec_string(lp.port as nat) + "/"@ + lp.protocol + " "@ + lp.local_address + if lp.process.len()
        == 0 {
        Seq::empty()
    } else {
        " ("@ + lp.process + ")"@
    }
}

/// The line that shows a listening socket.
pub fn listening_title(lp: &ListeningPort) -> (s: String)
    ensures
        s@ == listening_title_of(lp@),
{
    let mut out: Vec<char> = Vec::new();
    push_dec(&mut out, lp.port as u64);
    push_str(&mut out, "/");
    push_string(&mut out, &lp.protocol);
    push_str(&mut out, " ");
    push_string(&mut out, &lp.local_address);
    if !lp.process.as_str().is_empty() {
        push_str(&mut out, " (");
        push_string(&mut out, &lp.process);
        push_str(&mut out, ")");
    }
    assert(out@ =~= listening_title_of(lp@));
    string_of(&out)
}

/// How a logged packet reads: `<source> → <port> (<protocol>)`.
pub open spec fn event_title_of(e: BlockedEventView) -> Seq<char> {
    e.src_ip + " → "@ + e.dst_port + " ("@ + e.protocol + ")"@
}

/// The line that shows a logged packet.
pub fn event_title(e: &BlockedEvent) -> (s: String)
    ensures
        s@ == event_title_of(e@),
{
    let mut out = chars_of(e.src_ip.as_str());
    push_str(&mut out, " → ");
    push_string(&mut out, &e.dst_port);
    push_str(&mut out, " (");
    push_string(&mut out, &e.protocol);
    push_str(&mut out, ")");
    string_of(&out)
}

} // verus!
