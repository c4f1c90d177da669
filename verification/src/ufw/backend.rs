//! The firewall's state, read from `ufw`'s configuration files (which need
//! no privilege to read), and the `pkexec ufw …` command lines that change
//! it. The caller reads the files and runs the commands.
use vstd::prelude::*;
use crate::swap::hibernation::quote;
use crate::swap::zswap::{eq_ignore_ascii_case, eq_ignore_ascii_case_exec};
use crate::swap::exec::{three, two};
use crate::text::{
    chars_of, dec_string, ends_with, eq_range, eq_str, find_char, find_char_range,
    lemma_ends_with_char, lemma_find_char_from, lemma_starts_with_char, lines, lines_range,
    lowercase, owned, push_range, push_str, push_string, ranges_view, ranges_within, starts_with, starts_with_range, string_of,
    string_of_range, strings_view, to_lowercase, tokens, tokens_range, trim, trim_range,
    trim_set, trim_set_range, u64_to_string,
};
use crate::ufw::types::{
    action_arg, action_of, direction_arg, direction_of, policy_arg, policy_of, protocol_arg,
    protocol_of, Action, AppProfile, AppProfileView, Direction, Policy, Protocol, RuleParams,
    UfwError, UfwRule, UfwRuleView, UfwStatus, UfwStatusView,
};

verus! {

/// Whether the firewall is enabled, and its log level.
pub const UFW_CONF: &'static str = "/etc/ufw/ufw.conf";

/// The default policies.
pub const UFW_DEFAULTS: &'static str = "/etc/default/ufw";

/// The IPv4 rules added by the user.
pub const UFW_USER_RULES: &'static str = "/etc/ufw/user.rules";

/// The IPv6 rules added by the user.
pub const UFW_USER6_RULES: &'static str = "/etc/ufw/user6.rules";

/// The application profiles.
pub const UFW_APPS_DIR: &'static str = "/etc/ufw/applications.d";

// ─── Configuration files ────────────────────────────────────────────────────

/// What follows `key` on the first trimmed line that starts with it.
pub open spec fn conf_value(ls: Seq<Seq<char>>, key: Seq<char>) -> Option<Seq<char>>
    decreases ls.len(),
{
    if ls.len() == 0 {
        None
    } else if starts_with(trim(ls[0]), key) {
        Some(trim(ls[0]).skip(key.len() as int))
    } else {
        conf_value(ls.drop_first(), key)
    }
}

/// `ENABLED=yes` (in any ASCII case) in `ufw.conf`.
pub open spec fn enabled_of(conf: Seq<char>) -> bool {
    match conf_value(lines(conf), "ENABLED="@) {
        Some(v) => eq_ignore_ascii_case(v, "yes"@),
        None => false,
    }
}

/// `LOGLEVEL=` of `ufw.conf`, `off` when it is not set.
pub open spec fn logging_of(conf: Seq<char>) -> Seq<char> {
    match conf_value(lines(conf), "LOGLEVEL="@) {
        Some(v) => v,
        None => "off"@,
    }
}

/// The policy that the last valid line `key"<policy>"` sets.
pub open spec fn last_policy(ls: Seq<Seq<char>>, key: Seq<char>) -> Option<Policy>
    decreases ls.len(),
{
    if ls.len() == 0 {
        None
    } else {
        let l = trim(ls.last());
        let p = policy_of(trim_set(l.skip(key.len() as int), quote()));
        if starts_with(l, key) && p is Some {
            p
        } else {
            last_policy(ls.drop_last(), key)
        }
    }
}

/// The default incoming and outgoing policies of `/etc/default/ufw`: deny
/// and allow unless it sets them.
pub open spec fn defaults_of(content: Seq<char>) -> (Policy, Policy) {
    (
        match last_policy(lines(content), "DEFAULT_INPUT_POLICY="@) {
            Some(p) => p,
            None => Policy::Deny,
        },
        match last_policy(lines(content), "DEFAULT_OUTPUT_POLICY="@) {
            Some(p) => p,
            None => Policy::Allow,
        },
    )
}

/// How an address reads: `Anywhere` (or `Anywhere (v6)`) for any address.
pub open spec fn address_display(a: Seq<char>, v6: bool) -> Seq<char> {
    if a == "0.0.0.0/0"@ || a == "::/0"@ {
        if v6 {
            "Anywhere (v6)"@
        } else {
            "Anywhere"@
        }
    } else {
        a
    }
}

/// How the destination port reads, with the protocol it is restricted to.
pub open spec fn port_display(dport: Seq<char>, proto: Protocol) -> Seq<char> {
    match proto {
        Protocol::Both => dport,
        Protocol::Tcp => if dport == "any"@ {
            "any"@
        } else {
            dport + "/tcp"@
        },
        Protocol::Udp => if dport == "any"@ {
            "any"@
        } else {
            dport + "/udp"@
        },
    }
}

/// The rule that a `### tuple ###` comment describes: `<action> <protocol>
/// <dport> <dst> <sport> <src> <direction> …`; none when it has fewer than
/// seven fields or an unknown action. Its number is set later.
pub open spec fn tuple_rule(tuple: Seq<char>, v6: bool) -> Option<UfwRuleView> {
    let p = tokens(tuple);
    if p.len() < 7 {
        None
    } else {
        match action_of(p[0]) {
            None => None,
            Some(action) => {
                let proto = match protocol_of(p[1]) {
                    Some(x) => x,
                    None => Protocol::Both,
                };
                let direction = match direction_of(p[6]) {
                    Some(d) => d,
                    None => Direction::In,
                };
                Some(
                    UfwRuleView {
                        number: 0,
                        port: port_display(p[2], proto),
                        action,
                        direction,
                        from: address_display(p[5], v6),
                        to: address_display(p[3], v6),
                        v6,
                    },
                )
            },
        }
    }
}

/// Surrounding whitespace and fields after the seventh (such as
/// `comment=web`) do not change the rule that a tuple describes.
pub proof fn lemma_tuple_extra_fields(w: Seq<char>, t: Seq<char>, x: Seq<char>, v6: bool)
    requires
        forall|i: int| 0 <= i < w.len() ==> crate::text::is_ws(#[trigger] w[i]),
        tokens(t).len() >= 7,
    ensures
        tuple_rule(w + t + seq![' '] + x, v6) == tuple_rule(t, v6),
{
    let sx = seq![' '] + x;
    assert(w + t + seq![' '] + x =~= w + (t + sx));
    crate::text::lemma_tokens_skip_ws(w, t + sx);
    assert(sx[0] == ' ');
    crate::text::lemma_tokens_append(t, sx);
    let p = tokens(t + sx);
    let q = tokens(t);
    assert(p == q + tokens(sx));
    assert(p[0] == q[0] && p[1] == q[1] && p[2] == q[2] && p[3] == q[3] && p[5] == q[5] && p[6]
        == q[6]);
}

/// The rules of the lines of a rules file, from where `in_rules` says the
/// scan is: the tuples between `### RULES ###` and `### END RULES ###`.
pub open spec fn rules_from(ls: Seq<Seq<char>>, in_rules: bool, v6: bool) -> Seq<UfwRuleView>
    decreases ls.len(),
{
    if ls.len() == 0 {
        Seq::empty()
    } else {
        let l = trim(ls[0]);
        if l == "### RULES ###"@ {
            rules_from(ls.drop_first(), true, v6)
        } else if l == "### END RULES ###"@ {
            Seq::empty()
        } else if !in_rules {
            rules_from(ls.drop_first(), false, v6)
        } else if starts_with(l, "### tuple ###"@) {
            match tuple_rule(trim(l.skip(13)), v6) {
                Some(r) => seq![r] + rules_from(ls.drop_first(), true, v6),
                None => rules_from(ls.drop_first(), true, v6),
            }
        } else {
            rules_from(ls.drop_first(), true, v6)
        }
    }
}

/// The rules of a rules file.
pub open spec fn rules_of(content: Seq<char>, v6: bool) -> Seq<UfwRuleView> {
    rules_from(lines(content), false, v6)
}

/// The rules numbered from 1 in order.
pub open spec fn numbered(rs: Seq<UfwRuleView>) -> Seq<UfwRuleView> {
    Seq::new(rs.len(), |i: int| UfwRuleView { number: (i + 1) as u32, ..rs[i] })
}

/// The state of the firewall from `ufw.conf` and `/etc/default/ufw` (or why
/// they could not be read) and the two rules files (`None` where one could
/// not be read: it adds no rule).
pub open spec fn status_of(
    conf: Result<Seq<char>, Seq<char>>,
    defaults: Result<Seq<char>, Seq<char>>,
    v4: Option<Seq<char>>,
    v6: Option<Seq<char>>,
) -> Result<UfwStatusView, Seq<char>> {
    match conf {
        Err(e) => Err("Cannot read /etc/ufw/ufw.conf: "@ + e),
        Ok(c) => match defaults {
            Err(e) => Err("Cannot read /etc/default/ufw: "@ + e),
            Ok(d) => {
                let r4 = match v4 {
                    Some(x) => rules_of(x, false),
                    None => Seq::empty(),
                };
                let r6 = match v6 {
                    Some(x) => rules_of(x, true),
                    None => Seq::empty(),
                };
                Ok(
                    UfwStatusView {
                        active: enabled_of(c),
                        default_incoming: defaults_of(d).0,
                        default_outgoing: defaults_of(d).1,
                        rules: numbered(r4 + r6),
                        logging: logging_of(c),
                    },
                )
            },
        },
    }
}

pub open spec fn opt_string(o: Option<String>) -> Option<Seq<char>> {
    match o {
        Some(s) => Some(s@),
        None => None,
    }
}

pub open spec fn res_string(r: Result<String, String>) -> Result<Seq<char>, Seq<char>> {
    match r {
        Ok(s) => Ok(s@),
        Err(e) => Err(e@),
    }
}

/// The range of what follows `key` on the first trimmed line that starts
/// with it.
fn conf_value_range(v: &Vec<char>, key: &str) -> (r: Option<(usize, usize)>)
    ensures
        match r {
            Some((a, b)) => a <= b <= v.len() && conf_value(lines(v@), key@) == Some(
                v@.subrange(a as int, b as int),
            ),
            None => conf_value(lines(v@), key@) is None,
        },
{
    let k = chars_of(key);
    let ls = lines_range(v, 0, v.len());
    assert(v@.subrange(0, v@.len() as int) =~= v@);
    let ghost all = ranges_view(v@, ls@);
    let mut i: usize = 0;
    assert(all.skip(0) =~= all);
    while i < ls.len()
        invariant
            i <= ls.len(),
            k@ == key@,
            all == ranges_view(v@, ls@),
            all == lines(v@),
            ranges_within(ls@, 0, v@.len() as int),
            conf_value(all, key@) == conf_value(all.skip(i as int), key@),
        decreases ls.len() - i,
    {
        let (lo, hi) = ls[i];
        let ghost rest = all.skip(i as int);
        assert(rest[0] == v@.subrange(lo as int, hi as int));
        assert(rest.drop_first() =~= all.skip(i + 1));
        let (a, b) = trim_range(v, lo, hi);
        if starts_with_range(v, a, b, &k) {
            assert(v@.subrange(a as int, b as int).skip(k@.len() as int) =~= v@.subrange(
                a + k@.len(),
                b as int,
            ));
            return Some((a + k.len(), b));
        }
        i += 1;
    }
    assert(all.skip(i as int) =~= Seq::<Seq<char>>::empty());
    None
}

/// Whether `ufw.conf` enables the firewall.
pub fn read_enabled(conf: &str) -> (b: bool)
    ensures
        b == enabled_of(conf@),
{
    let v = chars_of(conf);
    match conf_value_range(&v, "ENABLED=") {
        Some((a, b)) => {
            let mut x: Vec<char> = Vec::new();
            push_range(&mut x, &v, a, b);
            assert(x@ =~= v@.subrange(a as int, b as int));
            eq_ignore_ascii_case_exec(&x, "yes")
        },
        None => false,
    }
}

/// The log level that `ufw.conf` sets.
pub fn read_logging(conf: &str) -> (s: String)
    ensures
        s@ == logging_of(conf@),
{
    let v = chars_of(conf);
    match conf_value_range(&v, "LOGLEVEL=") {
        Some((a, b)) => string_of_range(&v, a, b),
        None => owned("off"),
    }
}

/// The policy that line `v[a..b]` sets with `key`, if it is valid.
fn line_policy(v: &Vec<char>, a: usize, b: usize, key: &Vec<char>, q: &Vec<char>) -> (r: Option<
    Policy,
>)
    requires
        a <= b <= v.len(),
        q@ == quote(),
    ensures
        r == (if starts_with(v@.subrange(a as int, b as int), key@) {
            policy_of(trim_set(v@.subrange(a as int, b as int).skip(key@.len() as int), quote()))
        } else {
            None
        }),
{
    if !starts_with_range(v, a, b, key) {
        return None;
    }
    let (pa, pb) = trim_set_range(v, a + key.len(), b, q);
    assert(v@.subrange(a as int, b as int).skip(key@.len() as int) =~= v@.subrange(
        a + key@.len(),
        b as int,
    ));
    let s = string_of_range(v, pa, pb);
    Policy::from_str(s.as_str())
}

/// The policies that the lines `ls` of `v` set last with `kin` and `kout`.
fn last_policies(
    v: &Vec<char>,
    ls: &Vec<(usize, usize)>,
    kin: &Vec<char>,
    kout: &Vec<char>,
    q: &Vec<char>,
) -> (r: (Option<Policy>, Option<Policy>))
    requires
        ranges_within(ls@, 0, v@.len() as int),
        q@ == quote(),
    ensures
        r.0 == last_policy(ranges_view(v@, ls@), kin@),
        r.1 == last_policy(ranges_view(v@, ls@), kout@),
{
    let ghost all = ranges_view(v@, ls@);
    let mut incoming: Option<Policy> = None;
    let mut outgoing: Option<Policy> = None;
    let mut i: usize = 0;
    assert(all.take(0) =~= Seq::<Seq<char>>::empty());
    while i < ls.len()
        invariant
            i <= ls.len(),
            all == ranges_view(v@, ls@),
            ranges_within(ls@, 0, v@.len() as int),
            q@ == quote(),
            incoming == last_policy(all.take(i as int), kin@),
            outgoing == last_policy(all.take(i as int), kout@),
        decreases ls.len() - i,
    {
        let (lo, hi) = ls[i];
        assert(all.take(i + 1).drop_last() =~= all.take(i as int));
        assert(all.take(i + 1).last() == v@.subrange(lo as int, hi as int));
        let (a, b) = trim_range(v, lo, hi);
        match line_policy(v, a, b, kin, q) {
            Some(p) => {
                incoming = Some(p);
            },
            None => {},
        }
        match line_policy(v, a, b, kout, q) {
            Some(p) => {
                outgoing = Some(p);
            },
            None => {},
        }
        i += 1;
    }
    assert(all.take(ls.len() as int) =~= all);
    (incoming, outgoing)
}

/// The default policies that `/etc/default/ufw` sets.
pub fn read_defaults(content: &str) -> (r: (Policy, Policy))
    ensures
        r == defaults_of(content@),
{
    let v = chars_of(content);
    let ls = lines_range(&v, 0, v.len());
    assert(v@.subrange(0, v@.len() as int) =~= v@);
    let kin = chars_of("DEFAULT_INPUT_POLICY=");
    let kout = chars_of("DEFAULT_OUTPUT_POLICY=");
    let q = chars_of("\"");
    proof {
        reveal_strlit("\"");
    }
    assert(q@ =~= quote());
    let (incoming, outgoing) = last_policies(&v, &ls, &kin, &kout, &q);
    let inc = match incoming {
        Some(p) => p,
        None => Policy::Deny,
    };
    let out = match outgoing {
        Some(p) => p,
        None => Policy::Allow,
    };
    (inc, out)
}

/// `v[a..b]` as a `String`, read as a display address.
fn address_display_exec(v: &Vec<char>, a: usize, b: usize, v6: bool) -> (s: String)
    requires
        a <= b <= v.len(),
    ensures
        s@ == address_display(v@.subrange(a as int, b as int), v6),
{
    if eq_str(v, a, b, "0.0.0.0/0") || eq_str(v, a, b, "::/0") {
        if v6 {
            owned("Anywhere (v6)")
        } else {
            owned("Anywhere")
        }
    } else {
        string_of_range(v, a, b)
    }
}

/// The rule that a `### tuple ###` comment describes (the text after the
/// marker, trimmed).
pub fn parse_tuple(tuple: &str, v6: bool) -> (r: Option<UfwRule>)
    ensures
        match r {
            Some(x) => tuple_rule(tuple@, v6) == Some(x@),
            None => tuple_rule(tuple@, v6) is None,
        },
{
    let v = chars_of(tuple);
    assert(v@.subrange(0, v@.len() as int) =~= v@);
    parse_tuple_range(&v, 0, v.len(), v6)
}

/// The rule that the tuple `v[lo..hi]` describes.
fn parse_tuple_range(v: &Vec<char>, lo: usize, hi: usize, v6: bool) -> (r: Option<UfwRule>)
    requires
        lo <= hi <= v.len(),
    ensures
        match r {
            Some(x) => tuple_rule(v@.subrange(lo as int, hi as int), v6) == Some(x@),
            None => tuple_rule(v@.subrange(lo as int, hi as int), v6) is None,
        },
{
    let t = tokens_range(v, lo, hi);
    let ghost p = ranges_view(v@, t@);
    if t.len() < 7 {
        return None;
    }
    let (a0, b0) = t[0];
    let (a1, b1) = t[1];
    let (a2, b2) = t[2];
    let (a3, b3) = t[3];
    let (a5, b5) = t[5];
    let (a6, b6) = t[6];
    assert(p[0] == v@.subrange(a0 as int, b0 as int));
    assert(p[1] == v@.subrange(a1 as int, b1 as int));
    assert(p[2] == v@.subrange(a2 as int, b2 as int));
    assert(p[3] == v@.subrange(a3 as int, b3 as int));
    assert(p[5] == v@.subrange(a5 as int, b5 as int));
    assert(p[6] == v@.subrange(a6 as int, b6 as int));
    let s0 = string_of_range(v, a0, b0);
    let action = match Action::from_str(s0.as_str()) {
        Some(x) => x,
        None => {
            return None;
        },
    };
    let s1 = string_of_range(v, a1, b1);
    let proto = match Protocol::from_str(s1.as_str()) {
        Some(x) => x,
        None => Protocol::Both,
    };
    let s6 = string_of_range(v, a6, b6);
    let direction = match Direction::from_str(s6.as_str()) {
        Some(d) => d,
        None => Direction::In,
    };
    let ghost dport = v@.subrange(a2 as int, b2 as int);
    let port = match proto {
        Protocol::Both => string_of_range(v, a2, b2),
        Protocol::Tcp => {
            if eq_str(v, a2, b2, "any") {
                owned("any")
            } else {
                let mut x: Vec<char> = Vec::new();
                push_range(&mut x, v, a2, b2);
                push_str(&mut x, "/tcp");
                string_of(&x)
            }
        },
        Protocol::Udp => {
            if eq_str(v, a2, b2, "any") {
                owned("any")
            } else {
                let mut x: Vec<char> = Vec::new();
                push_range(&mut x, v, a2, b2);
                push_str(&mut x, "/udp");
                string_of(&x)
            }
        },
    };
    assert(port@ == port_display(dport, proto));
    let from = address_display_exec(v, a5, b5, v6);
    let to = address_display_exec(v, a3, b3, v6);
    Some(UfwRule { number: 0, port, action, direction, from, to, v6 })
}

/// The rules of a rules file.
pub fn parse_rules_file(content: &str, v6: bool) -> (r: Vec<UfwRule>)
    ensures
        r@.map_values(|x: UfwRule| x@) == rules_of(content@, v6),
{
    let v = chars_of(content);
    let ls = lines_range(&v, 0, v.len());
    assert(v@.subrange(0, v@.len() as int) =~= v@);
    let ghost all = ranges_view(v@, ls@);
    let start = chars_of("### RULES ###");
    let end = chars_of("### END RULES ###");
    let marker = chars_of("### tuple ###");
    proof {
        reveal_strlit("### tuple ###");
    }
    let mut rules: Vec<UfwRule> = Vec::new();
    let mut in_rules = false;
    let mut i: usize = 0;
    assert(all.skip(0) =~= all);
    while i < ls.len()
        invariant
            i <= ls.len(),
            all == ranges_view(v@, ls@),
            all == lines(v@),
            v@ == content@,
            ranges_within(ls@, 0, v@.len() as int),
            start@ == "### RULES ###"@,
            end@ == "### END RULES ###"@,
            marker@ == "### tuple ###"@,
            marker@.len() == 13,
            rules_of(content@, v6) == rules@.map_values(|x: UfwRule| x@) + rules_from(
                all.skip(i as int),
                in_rules,
                v6,
            ),
        decreases ls.len() - i,
    {
        let (lo, hi) = ls[i];
        let ghost rest = all.skip(i as int);
        assert(rest[0] == v@.subrange(lo as int, hi as int));
        assert(rest.drop_first() =~= all.skip(i + 1));
        let (a, b) = trim_range(&v, lo, hi);
        if eq_range(&v, a, b, &start) {
            in_rules = true;
        } else if eq_range(&v, a, b, &end) {
            assert(rules_from(rest, in_rules, v6) =~= Seq::<UfwRuleView>::empty());
            assert(rules@.map_values(|x: UfwRule| x@) + Seq::<UfwRuleView>::empty() =~= rules@.map_values(
                |x: UfwRule| x@,
            ));
            return rules;
        } else if in_rules && starts_with_range(&v, a, b, &marker) {
            let (ta, tb) = trim_range(&v, a + 13, b);
            assert(v@.subrange(a as int, b as int).skip(13) =~= v@.subrange(a + 13, b as int));
            let ghost before = rules@.map_values(|x: UfwRule| x@);
            match parse_tuple_range(&v, ta, tb, v6) {
                Some(r) => {
                    let ghost rv = r@;
                    rules.push(r);
                    assert(rules@.map_values(|x: UfwRule| x@) =~= before.push(rv));
                    assert(before + (seq![rv] + rules_from(all.skip(i + 1), true, v6)) =~= before.push(
                        rv,
                    ) + rules_from(all.skip(i + 1), true, v6));
                },
                None => {},
            }
        }
        i += 1;
    }
    assert(all.skip(i as int) =~= Seq::<Seq<char>>::empty());
    assert(rules@.map_values(|x: UfwRule| x@) + Seq::<UfwRuleView>::empty() =~= rules@.map_values(
        |x: UfwRule| x@,
    ));
    rules
}

/// The rules, numbered from 1 in order.
fn number_rules(rules: &mut Vec<UfwRule>)
    ensures
        final(rules)@.map_values(|x: UfwRule| x@) == numbered(old(rules)@.map_values(|x: UfwRule| x@)),
{
    let ghost orig = rules@.map_values(|x: UfwRule| x@);
    let mut i: usize = 0;
    while i < rules.len()
        invariant
            i <= rules.len(),
            rules@.len() == orig.len(),
            forall|k: int|
                0 <= k < rules@.len() ==> #[trigger] rules@[k]@ == (if k < i {
                    numbered(orig)[k]
                } else {
                    orig[k]
                }),
        decreases rules.len() - i,
    {
        let old = &rules[i];
        assert(old@ == orig[i as int]);
        let r = UfwRule {
            number: #[verifier::truncate] ((i + 1) as u32),
            port: old.port.clone(),
            action: old.action,
            direction: old.direction,
            from: old.from.clone(),
            to: old.to.clone(),
            v6: old.v6,
        };
        let ghost before = rules@;
        rules.set(i, r);
        assert(rules@ == before.update(i as int, r));
        assert(rules@[i as int]@ == numbered(orig)[i as int]);
        i += 1;
    }
    assert(rules@.map_values(|x: UfwRule| x@) =~= numbered(orig));
}

/// The state of the firewall from the contents of `ufw.conf` and
/// `/etc/default/ufw` (or why they could not be read) and of the two rules
/// files (`None` where one could not be read). The rules are numbered from 1,
/// IPv4 first.
pub fn read_status(
    conf: &Result<String, String>,
    defaults: &Result<String, String>,
    v4: &Option<String>,
    v6: &Option<String>,
) -> (r: Result<UfwStatus, UfwError>)
    ensures
        match r {
            Ok(s) => status_of(res_string(*conf), res_string(*defaults), opt_string(*v4), opt_string(*v6))
                == Ok::<UfwStatusView, Seq<char>>(s@),
            Err(e) => status_of(
                res_string(*conf),
                res_string(*defaults),
                opt_string(*v4),
                opt_string(*v6),
            ) == Err::<UfwStatusView, Seq<char>>(e.message@),
        },
{
    let c = match conf {
        Err(e) => {
            let mut m = chars_of("Cannot read /etc/ufw/ufw.conf: ");
            push_string(&mut m, e);
            return Err(UfwError { message: string_of(&m) });
        },
        Ok(c) => c,
    };
    let d = match defaults {
        Err(e) => {
            let mut m = chars_of("Cannot read /etc/default/ufw: ");
            push_string(&mut m, e);
            return Err(UfwError { message: string_of(&m) });
        },
        Ok(d) => d,
    };
    let active = read_enabled(c.as_str());
    let logging = read_logging(c.as_str());
    let (default_incoming, default_outgoing) = read_defaults(d.as_str());
    let mut rules: Vec<UfwRule> = match v4 {
        Some(x) => parse_rules_file(x.as_str(), false),
        None => Vec::new(),
    };
    let mut r6: Vec<UfwRule> = match v6 {
        Some(x) => parse_rules_file(x.as_str(), true),
        None => Vec::new(),
    };
    let ghost a4 = rules@.map_values(|x: UfwRule| x@);
    let ghost a6 = r6@.map_values(|x: UfwRule| x@);
    rules.append(&mut r6);
    assert(rules@.map_values(|x: UfwRule| x@) =~= a4 + a6);
    number_rules(&mut rules);
    let s = UfwStatus { active, default_incoming, default_outgoing, rules, logging };
    assert(a4 == match opt_string(*v4) {
        Some(x) => rules_of(x, false),
        None => Seq::<UfwRuleView>::empty(),
    });
    assert(a6 == match opt_string(*v6) {
        Some(x) => rules_of(x, true),
        None => Seq::<UfwRuleView>::empty(),
    });
    assert(s@.rules == numbered(a4 + a6));
    Ok(s)
}

} // verus!

verus! {

// ─── Application profiles ───────────────────────────────────────────────────

/// Where the scan of a profile file stands: the profiles read, the section
/// being read and the fields given so far.
pub struct ProfileScan {
    pub profiles: Seq<AppProfileView>,
    pub current: Option<Seq<char>>,
    pub title: Option<Seq<char>>,
    pub description: Option<Seq<char>>,
    pub ports: Option<Seq<char>>,
}

pub open spec fn or_empty(o: Option<Seq<char>>) -> Seq<char> {
    match o {
        Some(s) => s,
        None => Seq::empty(),
    }
}

/// The scan with the section being read, if any, saved as a profile and the
/// fields forgotten; without a section the fields stay.
pub open spec fn close_section(s: ProfileScan) -> ProfileScan {
    match s.current {
        Some(n) => ProfileScan {
            profiles: s.profiles.push(
                AppProfileView {
                    name: n,
                    title: or_empty(s.title),
                    description: or_empty(s.description),
                    ports: or_empty(s.ports),
                },
            ),
            current: None,
            title: None,
            description: None,
            ports: None,
        },
        None => s,
    }
}

/// The fields of a profile section that are kept.
#[derive(Debug, Clone, Copy, PartialEq, Eq, Structural)]
pub enum ProfileField {
    Title,
    Description,
    Ports,
}

/// The field that a key, already in lower case, sets.
pub open spec fn profile_field_of(key: Seq<char>) -> Option<ProfileField> {
    if key == "title"@ {
        Some(ProfileField::Title)
    } else if key == "description"@ {
        Some(ProfileField::Description)
    } else if key == "ports"@ {
        Some(ProfileField::Ports)
    } else {
        None
    }
}

/// The field that a key in lower case sets, if it is one that is kept.
pub fn profile_field(key_lower: &str) -> (f: Option<ProfileField>)
    ensures
        f == profile_field_of(key_lower@),
{
    let v = chars_of(key_lower);
    assert(v@.subrange(0, v@.len() as int) =~= v@);
    if eq_str(&v, 0, v.len(), "title") {
        Some(ProfileField::Title)
    } else if eq_str(&v, 0, v.len(), "description") {
        Some(ProfileField::Description)
    } else if eq_str(&v, 0, v.len(), "ports") {
        Some(ProfileField::Ports)
    } else {
        None
    }
}

/// One line of a profile file: comments and empty lines are skipped, `[Name]`
/// opens a section, `key=value` sets a field (the key trimmed and in lower
/// case; only `title`, `description` and `ports` are kept).
pub open spec fn profile_step(s: ProfileScan, raw: Seq<char>) -> ProfileScan {
    let l = trim(raw);
    if l.len() == 0 || starts_with(l, "#"@) {
        s
    } else if starts_with(l, "["@) && ends_with(l, "]"@) {
        ProfileScan { current: Some(l.subrange(1, l.len() - 1)), ..close_section(s) }
    } else {
        match find_char(l, '=') {
            Some(i) => {
                let val = trim(l.skip(i + 1));
                match profile_field_of(lowercase(trim(l.take(i)))) {
                    Some(ProfileField::Title) => ProfileScan { title: Some(val), ..s },
                    Some(ProfileField::Description) => ProfileScan { description: Some(val), ..s },
                    Some(ProfileField::Ports) => ProfileScan { ports: Some(val), ..s },
                    None => s,
                }
            },
            None => s,
        }
    }
}

pub open spec fn profile_run(s: ProfileScan, ls: Seq<Seq<char>>) -> ProfileScan
    decreases ls.len(),
{
    if ls.len() == 0 {
        s
    } else {
        profile_step(profile_run(s, ls.drop_last()), ls.last())
    }
}

/// The profiles of an INI-style profile file, in order.
pub open spec fn profiles_of(content: Seq<char>) -> Seq<AppProfileView> {
    close_section(
        profile_run(
            ProfileScan {
                profiles: Seq::empty(),
                current: None,
                title: None,
                description: None,
                ports: None,
            },
            lines(content),
        ),
    ).profiles
}

struct ProfileState {
    profiles: Vec<AppProfile>,
    current: Option<String>,
    title: Option<String>,
    description: Option<String>,
    ports: Option<String>,
}

impl ProfileState {
    spec fn view(&self) -> ProfileScan {
        ProfileScan {
            profiles: self.profiles@.map_values(|p: AppProfile| p@),
            current: opt_string(self.current),
            title: opt_string(self.title),
            description: opt_string(self.description),
            ports: opt_string(self.ports),
        }
    }
}

fn take_or_empty(o: Option<String>) -> (s: String)
    ensures
        s@ == or_empty(opt_string(o)),
{
    match o {
        Some(s) => s,
        None => String::new(),
    }
}

fn close_section_exec(st: &mut ProfileState)
    ensures
        final(st).view() == close_section(old(st).view()),
{
    match st.current.take() {
        Some(name) => {
            let title = take_or_empty(st.title.take());
            let description = take_or_empty(st.description.take());
            let ports = take_or_empty(st.ports.take());
            let p = AppProfile { name, title, description, ports };
            let ghost before = st.profiles@.map_values(|p: AppProfile| p@);
            let ghost pv = p@;
            st.profiles.push(p);
            assert(st.profiles@.map_values(|p: AppProfile| p@) =~= before.push(pv));
        },
        None => {},
    }
}

/// One line `v[lo..hi]` of a profile file.
fn profile_step_exec(st: &mut ProfileState, v: &Vec<char>, lo: usize, hi: usize)
    requires
        lo <= hi <= v.len(),
    ensures
        final(st).view() == profile_step(old(st).view(), v@.subrange(lo as int, hi as int)),
{
    let (a, b) = trim_range(v, lo, hi);
    let ghost l = v@.subrange(a as int, b as int);
    proof {
        reveal_strlit("#");
        reveal_strlit("[");
        reveal_strlit("]");
    }
    if a == b {
        return;
    }
    assert(l[0] == v@[a as int]);
    assert(l[l.len() - 1] == v@[b - 1]);
    proof {
        reveal_strlit("#");
        reveal_strlit("[");
        reveal_strlit("]");
        assert("#"@ =~= seq!['#']);
        assert("["@ =~= seq!['[']);
        assert("]"@ =~= seq![']']);
        lemma_starts_with_char(l, '#');
        lemma_starts_with_char(l, '[');
        lemma_ends_with_char(l, ']');
    }
    if v[a] == '#' {
        return;
    }
    if v[a] == '[' && v[b - 1] == ']' {
        close_section_exec(st);
        let ghost closed = st.view();
        assert(l.subrange(1, l.len() - 1) =~= v@.subrange(a + 1, b - 1));
        st.current = Some(string_of_range(v, a + 1, b - 1));
        assert(st.view() == ProfileScan { current: Some(l.subrange(1, l.len() - 1)), ..closed });
        return;
    }
    assert(!(starts_with(l, "["@) && ends_with(l, "]"@)));
    match find_char_range(v, a, b, '=') {
        Some(i) => {
            proof {
                lemma_find_char_from(l, '=', 0);
            }
            let (ka, kb) = trim_range(v, a, a + i);
            assert(l.take(i as int) =~= v@.subrange(a as int, a + i));
            let key_raw = string_of_range(v, ka, kb);
            let key = to_lowercase(key_raw.as_str());
            let (va, vb) = trim_range(v, a + i + 1, b);
            assert(l.skip(i + 1) =~= v@.subrange(a + i + 1, b as int));
            match profile_field(key.as_str()) {
                Some(ProfileField::Title) => st.title = Some(string_of_range(v, va, vb)),
                Some(ProfileField::Description) => st.description = Some(
                    string_of_range(v, va, vb),
                ),
                Some(ProfileField::Ports) => st.ports = Some(string_of_range(v, va, vb)),
                None => {},
            }
        },
        None => {},
    }
}

/// Runs the scan over the lines `ls` of `v`.
fn profile_run_exec(st: &mut ProfileState, v: &Vec<char>, ls: &Vec<(usize, usize)>)
    requires
        ranges_within(ls@, 0, v@.len() as int),
    ensures
        final(st).view() == profile_run(old(st).view(), ranges_view(v@, ls@)),
{
    let ghost all = ranges_view(v@, ls@);
    let ghost start = st.view();
    let mut i: usize = 0;
    assert(all.take(0) =~= Seq::<Seq<char>>::empty());
    while i < ls.len()
        invariant
            i <= ls.len(),
            all == ranges_view(v@, ls@),
            ranges_within(ls@, 0, v@.len() as int),
            st.view() == profile_run(start, all.take(i as int)),
        decreases ls.len() - i,
    {
        let (lo, hi) = ls[i];
        assert(all.take(i + 1).drop_last() =~= all.take(i as int));
        assert(all.take(i + 1).last() == v@.subrange(lo as int, hi as int));
        profile_step_exec(st, v, lo, hi);
        i += 1;
    }
    assert(all.take(ls.len() as int) =~= all);
}

/// The profiles of an INI-style profile file:
/// `[Name]` sections with `title=`, `description=` and `ports=` fields.
pub fn parse_app_profiles(content: &str) -> (r: Vec<AppProfile>)
    ensures
        r@.map_values(|p: AppProfile| p@) == profiles_of(content@),
{
    let v = chars_of(content);
    let ls = lines_range(&v, 0, v.len());
    assert(v@.subrange(0, v@.len() as int) =~= v@);
    let mut st = ProfileState {
        profiles: Vec::new(),
        current: None,
        title: None,
        description: None,
        ports: None,
    };
    assert(st.view().profiles =~= Seq::<AppProfileView>::empty());
    profile_run_exec(&mut st, &v, &ls);
    close_section_exec(&mut st);
    st.profiles
}

// ─── Commands (run with pkexec) ─────────────────────────────────────────────

/// The arguments of `pkexec` that run `ufw` with `args`.
pub open spec fn ufw_cmd(args: Seq<Seq<char>>) -> Seq<Seq<char>> {
    seq!["ufw"@] + args
}

/// `["ufw"] + args`, from string literals.
fn ufw_args(args: Vec<String>) -> (r: Vec<String>)
    ensures
        strings_view(r@) == ufw_cmd(strings_view(args@)),
{
    let mut r: Vec<String> = Vec::new();
    r.push(owned("ufw"));
    let mut i: usize = 0;
    while i < args.len()
        invariant
            i <= args.len(),
            strings_view(r@) == ufw_cmd(strings_view(args@.take(i as int))),
        decreases args.len() - i,
    {
        let ghost before = r@;
        r.push(args[i].clone());
        assert(strings_view(r@) =~= strings_view(before).push(args@[i as int]@));
        assert(strings_view(args@.take(i + 1)) =~= strings_view(args@.take(i as int)).push(
            args@[i as int]@,
        ));
        i += 1;
    }
    assert(args@.take(args.len() as int) =~= args@);
    r
}

/// Enables or disables the firewall: `ufw --force enable|disable`.
pub fn set_enabled(enabled: bool) -> (r: Vec<String>)
    ensures
        strings_view(r@) == ufw_cmd(
            seq![
                "--force"@,
                if enabled {
                    "enable"@
                } else {
                    "disable"@
                },
            ],
        ),
{
    let arg = if enabled {
        "enable"
    } else {
        "disable"
    };
    ufw_args(two("--force", arg))
}

/// Sets the log level: `ufw logging <level>`.
pub fn set_logging(level: &str) -> (r: Vec<String>)
    ensures
        strings_view(r@) == ufw_cmd(seq!["logging"@, level@]),
{
    ufw_args(two("logging", level))
}

/// Sets the default policy of a direction: `ufw default <policy> <direction>`.
pub fn set_default_policy(direction: Direction, policy: Policy) -> (r: Vec<String>)
    ensures
        strings_view(r@) == ufw_cmd(seq!["default"@, policy_arg(policy), direction_arg(direction)]),
{
    ufw_args(three("default", policy.as_ufw_arg(), direction.as_ufw_arg()))
}

/// Deletes rule `number`: `ufw --force delete <number>`.
pub fn delete_rule(number: u32) -> (r: Vec<String>)
    ensures
        strings_view(r@) == ufw_cmd(seq!["--force"@, "delete"@, dec_string(number as nat)]),
{
    let mut args: Vec<String> = Vec::new();
    args.push(owned("--force"));
    args.push(owned("delete"));
    args.push(u64_to_string(number as u64));
    assert(strings_view(args@) =~= seq!["--force"@, "delete"@, dec_string(number as nat)]);
    ufw_args(args)
}

/// Allows an application profile: `ufw allow <name>`.
pub fn allow_app(name: &str) -> (r: Vec<String>)
    ensures
        strings_view(r@) == ufw_cmd(seq!["allow"@, name@]),
{
    ufw_args(two("allow", name))
}

/// Deletes the rule that allows an application profile:
/// `ufw --force delete allow <name>`.
pub fn delete_app(name: &str) -> (r: Vec<String>)
    ensures
        strings_view(r@) == ufw_cmd(seq!["--force"@, "delete"@, "allow"@, name@]),
{
    let mut args = three("--force", "delete", "allow");
    let ghost before = args@;
    args.push(owned(name));
    assert(strings_view(args@) =~= strings_view(before).push(name@));
    assert(strings_view(args@) =~= seq!["--force"@, "delete"@, "allow"@, name@]);
    ufw_args(args)
}

pub struct RuleParamsView {
    pub port: Seq<char>,
    pub action: Action,
    pub direction: Option<Direction>,
    pub protocol: Option<Protocol>,
    pub from: Option<Seq<char>>,
    pub to: Option<Seq<char>>,
}

impl View for RuleParams {
    type V = RuleParamsView;

    open spec fn view(&self) -> RuleParamsView {
        RuleParamsView {
            port: self.port@,
            action: self.action,
            direction: self.direction,
            protocol: self.protocol,
            from: opt_string(self.from),
            to: opt_string(self.to),
        }
    }
}

/// `[word, value]` when `value` is given and not empty.
pub open spec fn clause(word: Seq<char>, value: Option<Seq<char>>) -> Seq<Seq<char>> {
    match value {
        Some(v) => if v.len() > 0 {
            seq![word, v]
        } else {
            Seq::empty()
        },
        None => Seq::empty(),
    }
}

/// The arguments of `ufw` that add a rule: the action, the direction, the
/// `from` and `to` clauses, then the port, as `port <port>` after a clause
/// (and `proto <protocol>` for one protocol), or else as `<port>/<protocol>`.
/// A source or destination that was given, even empty, counts as a clause.
pub open spec fn rule_args(p: RuleParamsView) -> Seq<Seq<char>> {
    let clauses = p.from is Some || p.to is Some;
    let port = if p.port.len() > 0 {
        if clauses {
            seq!["port"@, p.port]
        } else {
            seq![
                match p.protocol {
                    Some(Protocol::Tcp) => p.port + "/tcp"@,
                    Some(Protocol::Udp) => p.port + "/udp"@,
                    _ => p.port,
                },
            ]
        }
    } else {
        Seq::empty()
    };
    let proto = match p.protocol {
        Some(pr) => if clauses {
            match protocol_arg(pr) {
                Some(a) => seq!["proto"@, a],
                None => Seq::empty(),
            }
        } else {
            Seq::empty()
        },
        None => Seq::empty(),
    };
    seq![action_arg(p.action)] + match p.direction {
        Some(d) => seq![direction_arg(d)],
        None => Seq::empty(),
    } + clause("from"@, p.from) + clause("to"@, p.to) + port + proto
}

/// Without a source or destination, a rule for one protocol names its port
/// as `<port>/<protocol>`: the last argument is the port, a `/`, and a
/// protocol name that reads back as the rule's protocol (`/udp` for UDP,
/// `/tcp` for TCP); a rule for both protocols names the port alone.
pub proof fn lemma_rule_port_protocol(p: RuleParamsView)
    requires
        p.from is None,
        p.to is None,
        p.port.len() > 0,
    ensures
        ({
            let last = rule_args(p).last();
            match p.protocol {
                Some(Protocol::Udp) => last == p.port + "/udp"@ && protocol_of(
                    last.skip(p.port.len() + 1int),
                ) == Some(Protocol::Udp) && last[p.port.len() as int] == '/',
                Some(Protocol::Tcp) => last == p.port + "/tcp"@ && protocol_of(
                    last.skip(p.port.len() + 1int),
                ) == Some(Protocol::Tcp) && last[p.port.len() as int] == '/',
                _ => last == p.port,
            }
        }),
        rule_args(p).len() == if p.direction is Some {
            3int
        } else {
            2int
        },
{
    reveal_strlit("/udp");
    reveal_strlit("/tcp");
    reveal_strlit("udp");
    reveal_strlit("tcp");
    let n = p.port.len() as int;
    let a = rule_args(p);
    assert(clause("from"@, p.from) =~= Seq::<Seq<char>>::empty());
    assert(clause("to"@, p.to) =~= Seq::<Seq<char>>::empty());
    match p.protocol {
        Some(Protocol::Udp) => {
            let last = p.port + "/udp"@;
            assert(last.skip(n + 1) =~= "udp"@);
            assert(eq_ignore_ascii_case("udp"@, "udp"@));
            assert(!eq_ignore_ascii_case("udp"@, "tcp"@)) by {
                assert(crate::swap::zswap::ascii_lower("udp"@[0]) != crate::swap::zswap::ascii_lower(
                    "tcp"@[0],
                ));
            }
        },
        Some(Protocol::Tcp) => {
            let last = p.port + "/tcp"@;
            assert(last.skip(n + 1) =~= "tcp"@);
            assert(eq_ignore_ascii_case("tcp"@, "tcp"@));
        },
        _ => {},
    }
}

/// Appends `[word, value]` when `value` is given and not empty.
fn push_clause(args: &mut Vec<String>, word: &str, value: &Option<String>)
    ensures
        strings_view(final(args)@) == strings_view(old(args)@) + clause(word@, opt_string(*value)),
{
    let ghost before = strings_view(args@);
    match value {
        Some(v) => {
            if !v.as_str().is_empty() {
                args.push(owned(word));
                args.push(v.clone());
                assert(strings_view(args@) =~= before + seq![word@, v@]);
            } else {
                assert(before + Seq::<Seq<char>>::empty() =~= before);
            }
        },
        None => {
            assert(before + Seq::<Seq<char>>::empty() =~= before);
        },
    }
}

/// Adds a rule: `ufw <action> [<direction>] [from <src>] [to <dst>] …`.
pub fn add_rule(params: &RuleParams) -> (r: Vec<String>)
    ensures
        strings_view(r@) == ufw_cmd(rule_args(params@)),
{
    let ghost p = params@;
    let mut args: Vec<String> = Vec::new();
    args.push(owned(params.action.as_ufw_arg()));
    match &params.direction {
        Some(d) => args.push(owned(d.as_ufw_arg())),
        None => {},
    }
    let ghost a1 = strings_view(args@);
    assert(a1 =~= seq![action_arg(p.action)] + match p.direction {
        Some(d) => seq![direction_arg(d)],
        None => Seq::<Seq<char>>::empty(),
    });
    push_clause(&mut args, "from", &params.from);
    push_clause(&mut args, "to", &params.to);
    let ghost a3 = strings_view(args@);
    let clauses = params.from.is_some() || params.to.is_some();
    if !params.port.as_str().is_empty() {
        if clauses {
            args.push(owned("port"));
            args.push(params.port.clone());
        } else {
            let mut x = chars_of(params.port.as_str());
            match &params.protocol {
                Some(Protocol::Tcp) => push_str(&mut x, "/tcp"),
                Some(Protocol::Udp) => push_str(&mut x, "/udp"),
                _ => {},
            }
            args.push(string_of(&x));
        }
    }
    let ghost a4 = strings_view(args@);
    if clauses && params.protocol.is_some() {
        match params.protocol.unwrap().as_ufw_arg() {
            Some(pr) => {
                args.push(owned("proto"));
                args.push(owned(pr));
            },
            None => {},
        }
    }
    assert(strings_view(args@) =~= rule_args(p));
    ufw_args(args)
}

/// What a `pkexec ufw` run that ended gives: its standard output on success;
/// a cancelled authentication (exit status 126); otherwise its standard
/// error, or its standard output when nothing was written on standard error.
pub open spec fn ufw_result(
    success: bool,
    code: Option<i32>,
    stdout: Seq<char>,
    stderr: Seq<char>,
) -> Result<Seq<char>, Seq<char>> {
    if success {
        Ok(stdout)
    } else if code == Some(126i32) {
        Err("Authentication cancelled"@)
    } else if stderr.len() == 0 {
        Err("UFW command failed: "@ + stdout)
    } else {
        Err("UFW command failed: "@ + stderr)
    }
}

/// Interprets how a `pkexec ufw` run ended.
pub fn ufw_outcome(success: bool, code: Option<i32>, stdout: String, stderr: String) -> (r: Result<
    String,
    UfwError,
>)
    ensures
        match r {
            Ok(s) => ufw_result(success, code, stdout@, stderr@) == Ok::<Seq<char>, Seq<char>>(s@),
            Err(e) => ufw_result(success, code, stdout@, stderr@) == Err::<Seq<char>, Seq<char>>(
                e.message@,
            ),
        },
{
    if success {
        Ok(stdout)
    } else if code == Some(126i32) {
        Err(UfwError { message: owned("Authentication cancelled") })
    } else {
        let mut m = chars_of("UFW command failed: ");
        if stderr.as_str().is_empty() {
            push_string(&mut m, &stdout);
        } else {
            push_string(&mut m, &stderr);
        }
        Err(UfwError { message: string_of(&m) })
    }
}

/// Whether a rule allows the profile: a rule whose port, in lower case, is
/// the profile's name in lower case, and whose action is `allow`.
pub open spec fn allows_profile(rules: Seq<UfwRuleView>, profile: AppProfileView) -> bool {
    exists|i: int|
        0 <= i < rules.len() && lowercase(#[trigger] rules[i].port) == lowercase(profile.name)
            && rules[i].action == Action::Allow
}

/// Whether a rule allows a profile, given the rule's port and the profile's
/// name both in lower case: they are equal and the action is `allow`.
pub fn lowered_rule_allows(port_lower: &str, action: Action, name_lower: &str) -> (b: bool)
    ensures
        b == (port_lower@ == name_lower@ && action == Action::Allow),
{
    let same_action = match action {
        Action::Allow => true,
        _ => false,
    };
    if !same_action {
        return false;
    }
    let p = chars_of(port_lower);
    assert(p@.subrange(0, p@.len() as int) =~= p@);
    eq_str(&p, 0, p.len(), name_lower)
}

/// Whether an application profile is allowed by one of the rules.
pub fn is_app_allowed(rules: &Vec<UfwRule>, profile: &AppProfile) -> (b: bool)
    ensures
        b == allows_profile(rules@.map_values(|r: UfwRule| r@), profile@),
{
    let ghost rv = rules@.map_values(|r: UfwRule| r@);
    let name = to_lowercase(profile.name.as_str());
    let mut i: usize = 0;
    while i < rules.len()
        invariant
            i <= rules.len(),
            rv == rules@.map_values(|r: UfwRule| r@),
            name@ == lowercase(profile.name@),
            forall|k: int|
                0 <= k < i ==> !(lowercase(#[trigger] rv[k].port) == lowercase(profile.name@)
                    && rv[k].action == Action::Allow),
        decreases rules.len() - i,
    {
        let port = to_lowercase(rules[i].port.as_str());
        assert(rv[i as int] == rules@[i as int]@);
        if lowered_rule_allows(port.as_str(), rules[i].action, name.as_str()) {
            assert(lowercase(rv[i as int].port) == lowercase(profile.name@));
            return true;
        }
        i += 1;
    }
    false
}

} // verus!

verus! {

// ─── Reading all profiles ───────────────────────────────────────────────────

/// `a < b` for strings: the order of `str`, by code point from the first
/// difference, a proper prefix first.
pub open spec fn name_lt(a: Seq<char>, b: Seq<char>) -> bool
    decreases a.len(),
{
    if a.len() == 0 {
        b.len() > 0
    } else if b.len() == 0 {
        false
    } else if a[0] != b[0] {
        a[0] < b[0]
    } else {
        name_lt(a.drop_first(), b.drop_first())
    }
}

/// The order of strings is transitive.
pub proof fn lemma_name_lt_transitive(a: Seq<char>, b: Seq<char>, c: Seq<char>)
    requires
        name_lt(a, b),
        name_lt(b, c),
    ensures
        name_lt(a, c),
    decreases a.len(),
{
    if a.len() > 0 && b.len() > 0 && c.len() > 0 && a[0] == b[0] && b[0] == c[0] {
        lemma_name_lt_transitive(a.drop_first(), b.drop_first(), c.drop_first());
    }
}

/// The order of strings is irreflexive and asymmetric.
pub proof fn lemma_name_lt_asymmetric(a: Seq<char>, b: Seq<char>)
    ensures
        !(name_lt(a, b) && name_lt(b, a)),
    decreases a.len(),
{
    if a.len() > 0 && b.len() > 0 && a[0] == b[0] {
        lemma_name_lt_asymmetric(a.drop_first(), b.drop_first());
    }
}

/// The profiles of the files, file after file.
pub open spec fn all_profiles(files: Seq<Seq<char>>) -> Seq<AppProfileView>
    decreases files.len(),
{
    if files.len() == 0 {
        Seq::empty()
    } else {
        all_profiles(files.drop_last()) + profiles_of(files.last())
    }
}

/// Where `x` goes in `s`: before the first profile whose name is greater.
pub open spec fn insert_pos(s: Seq<AppProfileView>, x: AppProfileView) -> int
    decreases s.len(),
{
    if s.len() == 0 {
        0
    } else if name_lt(x.name, s[0].name) {
        0
    } else {
        1 + insert_pos(s.drop_first(), x)
    }
}

/// The profiles sorted by name; profiles of equal names keep their order.
pub open spec fn sort_by_name(s: Seq<AppProfileView>) -> Seq<AppProfileView>
    decreases s.len(),
{
    if s.len() == 0 {
        Seq::empty()
    } else {
        let t = sort_by_name(s.drop_last());
        t.insert(insert_pos(t, s.last()), s.last())
    }
}

/// No profile has a name smaller than one before it.
pub open spec fn sorted_by_name(s: Seq<AppProfileView>) -> bool {
    forall|i: int, j: int| 0 <= i < j < s.len() ==> !name_lt(#[trigger] s[j].name, #[trigger] s[i].name)
}

proof fn lemma_insert_pos(s: Seq<AppProfileView>, x: AppProfileView)
    ensures
        0 <= insert_pos(s, x) <= s.len(),
        forall|k: int| 0 <= k < insert_pos(s, x) ==> !name_lt(x.name, #[trigger] s[k].name),
        insert_pos(s, x) < s.len() ==> name_lt(x.name, s[insert_pos(s, x)].name),
    decreases s.len(),
{
    if s.len() > 0 && !name_lt(x.name, s[0].name) {
        lemma_insert_pos(s.drop_first(), x);
        assert forall|k: int| 0 <= k < insert_pos(s, x) implies !name_lt(
            x.name,
            #[trigger] s[k].name,
        ) by {
            if k > 0 {
                assert(s[k] == s.drop_first()[k - 1]);
            }
        }
    }
}

/// Sorting by name gives the profiles in order of their names.
pub proof fn lemma_sort_by_name_sorted(s: Seq<AppProfileView>)
    ensures
        sorted_by_name(sort_by_name(s)),
        sort_by_name(s).len() == s.len(),
    decreases s.len(),
{
    if s.len() > 0 {
        let t = sort_by_name(s.drop_last());
        let x = s.last();
        lemma_sort_by_name_sorted(s.drop_last());
        lemma_insert_pos(t, x);
        let p = insert_pos(t, x);
        let r = t.insert(p, x);
        assert forall|i: int, j: int| 0 <= i < j < r.len() implies !name_lt(
            #[trigger] r[j].name,
            #[trigger] r[i].name,
        ) by {
            if j < p {
                assert(r[i] == t[i] && r[j] == t[j]);
            } else if j == p {
                assert(r[j] == x && r[i] == t[i]);
            } else if i < p {
                assert(r[i] == t[i] && r[j] == t[j - 1]);
            } else if i == p {
                assert(r[i] == x && r[j] == t[j - 1]);
                if name_lt(t[j - 1].name, x.name) {
                    if j - 1 > p {
                        assert(!name_lt(t[j - 1].name, t[p].name));
                    }
                    lemma_name_lt_transitive(t[j - 1].name, x.name, t[p].name);
                    lemma_name_lt_asymmetric(t[j - 1].name, t[j - 1].name);
                }
            } else {
                assert(r[i] == t[i - 1] && r[j] == t[j - 1]);
            }
        }
    }
}

/// Sorting by name keeps the profiles: each as often as before.
pub proof fn lemma_sort_by_name_permutes(s: Seq<AppProfileView>)
    ensures
        sort_by_name(s).to_multiset() == s.to_multiset(),
    decreases s.len(),
{
    broadcast use vstd::seq_lib::group_to_multiset_ensures;

    if s.len() > 0 {
        let t = sort_by_name(s.drop_last());
        let x = s.last();
        lemma_sort_by_name_permutes(s.drop_last());
        lemma_insert_pos(t, x);
        assert(s =~= s.drop_last().push(x));
        assert(t.insert(insert_pos(t, x), x).to_multiset() == t.to_multiset().insert(x));
    }
}

/// Whether the string `a` is smaller than `b`.
fn name_lt_exec(a: &String, b: &String) -> (r: bool)
    ensures
        r == name_lt(a@, b@),
{
    let va = chars_of(a.as_str());
    let vb = chars_of(b.as_str());
    let mut i: usize = 0;
    assert(a@.skip(0) =~= a@);
    assert(b@.skip(0) =~= b@);
    while i < va.len() && i < vb.len() && va[i] == vb[i]
        invariant
            i <= va.len(),
            i <= vb.len(),
            va@ == a@,
            vb@ == b@,
            name_lt(a@, b@) == name_lt(a@.skip(i as int), b@.skip(i as int)),
        decreases va.len() - i,
    {
        assert(a@.skip(i as int).drop_first() =~= a@.skip(i + 1));
        assert(b@.skip(i as int).drop_first() =~= b@.skip(i + 1));
        i += 1;
    }
    if i == va.len() {
        i < vb.len()
    } else if i == vb.len() {
        false
    } else {
        va[i] < vb[i]
    }
}

/// Puts `x` where it goes in the sorted `v`.
fn insert_by_name(v: &mut Vec<AppProfile>, x: AppProfile)
    ensures
        final(v)@.map_values(|p: AppProfile| p@) == old(v)@.map_values(|p: AppProfile| p@).insert(
            insert_pos(old(v)@.map_values(|p: AppProfile| p@), x@),
            x@,
        ),
{
    let ghost s = v@.map_values(|p: AppProfile| p@);
    let mut k: usize = 0;
    assert(s.skip(0) =~= s);
    while k < v.len() && !name_lt_exec(&x.name, &v[k].name)
        invariant
            k <= v.len(),
            s == v@.map_values(|p: AppProfile| p@),
            insert_pos(s, x@) == k + insert_pos(s.skip(k as int), x@),
        decreases v.len() - k,
    {
        assert(s.skip(k as int)[0] == s[k as int]);
        assert(s.skip(k as int).drop_first() =~= s.skip(k + 1));
        k += 1;
    }
    proof {
        if k < v.len() {
            assert(s.skip(k as int)[0] == s[k as int]);
        }
    }
    let ghost xv = x@;
    v.insert(k, x);
    assert(v@.map_values(|p: AppProfile| p@) =~= s.insert(k as int, xv));
}

/// All the profiles of the profile files (their contents, in the order
/// the directory gave them), sorted by name.
pub fn collect_profiles(files: &Vec<String>) -> (r: Vec<AppProfile>)
    ensures
        r@.map_values(|p: AppProfile| p@) == sort_by_name(
            all_profiles(files@.map_values(|f: String| f@)),
        ),
        sorted_by_name(r@.map_values(|p: AppProfile| p@)),
        r@.map_values(|p: AppProfile| p@).to_multiset() == all_profiles(
            files@.map_values(|f: String| f@),
        ).to_multiset(),
{
    let ghost fs = files@.map_values(|f: String| f@);
    let mut all: Vec<AppProfile> = Vec::new();
    let mut i: usize = 0;
    assert(fs.take(0) =~= Seq::<Seq<char>>::empty());
    while i < files.len()
        invariant
            i <= files.len(),
            fs == files@.map_values(|f: String| f@),
            all@.map_values(|p: AppProfile| p@) == all_profiles(fs.take(i as int)),
        decreases files.len() - i,
    {
        let mut ps = parse_app_profiles(files[i].as_str());
        let ghost before = all@.map_values(|p: AppProfile| p@);
        let ghost added = ps@.map_values(|p: AppProfile| p@);
        all.append(&mut ps);
        assert(fs.take(i + 1).drop_last() =~= fs.take(i as int));
        assert(fs.take(i + 1).last() == files@[i as int]@);
        assert(all@.map_values(|p: AppProfile| p@) =~= before + added);
        i += 1;
    }
    assert(fs.take(files.len() as int) =~= fs);
    let ghost src = all@.map_values(|p: AppProfile| p@);
    let mut sorted: Vec<AppProfile> = Vec::new();
    let mut rest = all;
    let mut j: usize = 0;
    let n = rest.len();
    assert(src.take(0) =~= Seq::<AppProfileView>::empty());
    while j < n
        invariant
            j <= n,
            n == src.len(),
            rest@.map_values(|p: AppProfile| p@) == src,
            sorted@.map_values(|p: AppProfile| p@) == sort_by_name(src.take(j as int)),
        decreases n - j,
    {
        let x = rest[j].clone_profile();
        assert(src.take(j + 1).drop_last() =~= src.take(j as int));
        assert(src.take(j + 1).last() == rest@[j as int]@);
        insert_by_name(&mut sorted, x);
        j += 1;
    }
    assert(src.take(n as int) =~= src);
    proof {
        lemma_sort_by_name_sorted(src);
        lemma_sort_by_name_permutes(src);
    }
    sorted
}

impl AppProfile {
    /// A copy of the profile.
    pub fn clone_profile(&self) -> (p: AppProfile)
        ensures
            p@ == self@,
    {
        AppProfile {
            name: self.name.clone(),
            title: self.title.clone(),
            description: self.description.clone(),
            ports: self.ports.clone(),
        }
    }
}

} // verus!
