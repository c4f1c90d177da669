use anduinos_control::ufw::backend::{
    add_rule, allow_app, collect_profiles, delete_app, delete_rule, is_app_allowed,
    lowered_rule_allows, parse_app_profiles, profile_field, parse_rules_file, parse_tuple, read_defaults, read_enabled,
    read_logging, read_status, set_default_policy, set_enabled, set_logging, ufw_outcome,
    ProfileField,
};
use anduinos_control::ufw::monitor::{ChangeKind, UfwMonitor};
use anduinos_control::ufw::stats::{
    extract_field, extract_process_name, parse_kernel_log_line, parse_listening_ports,
    parse_rule_counters, read_blocked_events, top_blocked_ips, top_blocked_ports, BlockedEvent,
};
use anduinos_control::ufw::ui::{
    blocked_count, event_title, listening_title, log_limit, logging_index, logging_level,
    lower_level_index, preset_port, quick_add_rule, rule_from_form,
};
use anduinos_control::ufw::types::{
    Action, AppProfile, Direction, Policy, Protocol, RuleParams, UfwRule,
};

fn s(x: &str) -> String {
    x.to_string()
}

fn strings(v: &[&str]) -> Vec<String> {
    v.iter().map(|x| x.to_string()).collect()
}

#[test]
fn test_parse_tuple_allow_tcp() {
    let rule = parse_tuple("allow tcp 22 0.0.0.0/0 any 0.0.0.0/0 in", false).unwrap();
    assert_eq!(rule.port, "22/tcp");
    assert_eq!(rule.action, Action::Allow);
    assert_eq!(rule.direction, Direction::In);
    assert_eq!(rule.from, "Anywhere");
    assert!(!rule.v6);
}

#[test]
fn test_parse_tuple_deny_any() {
    let rule = parse_tuple("deny any 80 0.0.0.0/0 any 192.168.1.0/24 in", false).unwrap();
    assert_eq!(rule.port, "80");
    assert_eq!(rule.action, Action::Deny);
    assert_eq!(rule.from, "192.168.1.0/24");
}

#[test]
fn test_parse_tuple_v6() {
    let rule = parse_tuple("allow tcp 443 ::/0 any ::/0 in", true).unwrap();
    assert_eq!(rule.port, "443/tcp");
    assert_eq!(rule.from, "Anywhere (v6)");
    assert!(rule.v6);
}

#[test]
fn test_parse_tuple_short() {
    assert!(parse_tuple("allow tcp", false).is_none());
}

#[test]
fn parse_tuple_more_cases() {
    let udp = parse_tuple("limit udp any 10.0.0.1 any 0.0.0.0/0 out", false).unwrap();
    assert_eq!(udp.port, "any");
    assert_eq!(udp.action, Action::Limit);
    assert_eq!(udp.direction, Direction::Out);
    assert_eq!(udp.to, "10.0.0.1");
    let udp2 = parse_tuple("reject udp 53 0.0.0.0/0 any 0.0.0.0/0 in", false).unwrap();
    assert_eq!(udp2.port, "53/udp");
    assert_eq!(udp2.action, Action::Reject);
    assert!(parse_tuple("frobnicate tcp 22 0.0.0.0/0 any 0.0.0.0/0 in", false).is_none());
}

#[test]
fn test_parse_app_profiles() {
    let content = r#"
[CUPS]
title=Common UNIX Printing System server
description=CUPS is a printing system with support for IPP
ports=631

[OpenSSH]
title=Secure Shell
description=OpenSSH server
ports=22/tcp
"#;
    let profiles = parse_app_profiles(content);
    assert_eq!(profiles.len(), 2);
    assert_eq!(profiles[0].name, "CUPS");
    assert_eq!(profiles[0].ports, "631");
    assert_eq!(profiles[1].name, "OpenSSH");
    assert_eq!(profiles[1].ports, "22/tcp");
}

#[test]
fn app_profiles_keys_and_sorting() {
    let a = "# apps\n[Zeta]\nTITLE = Z title\nPorts=1\n";
    let b = "[Alpha]\ndescription=first\n[Mid]\nports=3/udp\n";
    let profiles = parse_app_profiles(a);
    assert_eq!(profiles[0].title, "Z title");
    assert_eq!(profiles[0].ports, "1");
    assert_eq!(profiles[0].description, "");
    let all = collect_profiles(&vec![s(a), s(b)]);
    let names: Vec<&str> = all.iter().map(|p| p.name.as_str()).collect();
    assert_eq!(names, vec!["Alpha", "Mid", "Zeta"]);
}

#[test]
fn test_policy_from_str() {
    assert_eq!(Policy::from_str("ALLOW"), Some(Policy::Allow));
    assert_eq!(Policy::from_str("DROP"), Some(Policy::Deny));
    assert_eq!(Policy::from_str("REJECT"), Some(Policy::Reject));
    assert_eq!(Policy::from_str("invalid"), None);
}

#[test]
fn vocabulary_round_trips() {
    for p in [Policy::Deny, Policy::Allow, Policy::Reject] {
        assert_eq!(Policy::from_str(p.as_ufw_arg()), Some(p));
        assert_eq!(Policy::from_index(p.index()), p);
    }
    for a in [Action::Allow, Action::Deny, Action::Reject, Action::Limit] {
        assert_eq!(Action::from_str(a.as_ufw_arg()), Some(a));
        assert_eq!(Action::from_index(a.index()), a);
    }
    for p in [Protocol::Both, Protocol::Tcp, Protocol::Udp] {
        assert_eq!(Protocol::from_index(p.index()), p);
    }
    for d in [Direction::In, Direction::Out] {
        assert_eq!(Direction::from_str(d.as_ufw_arg()), Some(d));
    }
    assert_eq!(Policy::from_str("accept"), Some(Policy::Allow));
    assert_eq!(Protocol::from_str("any"), Some(Protocol::Both));
    assert_eq!(Protocol::Tcp.as_ufw_arg(), Some("tcp"));
    assert_eq!(Protocol::Both.as_ufw_arg(), None);
}

const USER_RULES: &str = "*filter\n:ufw-user-input - [0:0]\n### RULES ###\n\n\
### tuple ### allow tcp 22 0.0.0.0/0 any 0.0.0.0/0 in\n\
-A ufw-user-input -p tcp --dport 22 -j ACCEPT\n\n\
### tuple ### deny any 80 0.0.0.0/0 any 192.168.1.0/24 in\n\
### END RULES ###\n\
### tuple ### allow tcp 9999 0.0.0.0/0 any 0.0.0.0/0 in\n";

const USER6_RULES: &str = "### RULES ###\n### tuple ### allow tcp 443 ::/0 any ::/0 in\n### END RULES ###\n";

#[test]
fn status_from_files() {
    let conf = "# /etc/ufw/ufw.conf\nENABLED=yes\nLOGLEVEL=low\n";
    let defaults = "IPV6=yes\nDEFAULT_INPUT_POLICY=\"DROP\"\nDEFAULT_OUTPUT_POLICY=\"ACCEPT\"\nDEFAULT_FORWARD_POLICY=\"DROP\"\n";
    assert!(read_enabled(conf));
    assert!(!read_enabled("ENABLED=no\n"));
    assert!(!read_enabled(""));
    assert_eq!(read_logging(conf), "low");
    assert_eq!(read_logging("ENABLED=yes\n"), "off");
    assert_eq!(read_defaults(defaults), (Policy::Deny, Policy::Allow));
    assert_eq!(read_defaults("DEFAULT_INPUT_POLICY=\"REJECT\"\nDEFAULT_OUTPUT_POLICY=\"bogus\"\n"), (Policy::Reject, Policy::Allow));
    let v4 = parse_rules_file(USER_RULES, false);
    assert_eq!(v4.len(), 2);
    let st = read_status(&Ok(s(conf)), &Ok(s(defaults)), &Some(s(USER_RULES)), &Some(s(USER6_RULES))).unwrap();
    assert!(st.active);
    assert_eq!(st.logging, "low");
    assert_eq!(st.default_incoming, Policy::Deny);
    assert_eq!(st.default_outgoing, Policy::Allow);
    let numbers: Vec<u32> = st.rules.iter().map(|r| r.number).collect();
    assert_eq!(numbers, vec![1, 2, 3]);
    assert_eq!(st.rules[2].port, "443/tcp");
    assert!(st.rules[2].v6);
    let no_v6 = read_status(&Ok(s(conf)), &Ok(s(defaults)), &Some(s(USER_RULES)), &None).unwrap();
    assert_eq!(no_v6.rules.len(), 2);
    let e1 = read_status(&Err(s("Permission denied (os error 13)")), &Ok(s(defaults)), &None, &None);
    assert_eq!(e1.unwrap_err().message, "Cannot read /etc/ufw/ufw.conf: Permission denied (os error 13)");
    let e2 = read_status(&Ok(s(conf)), &Err(s("gone")), &None, &None);
    assert_eq!(e2.unwrap_err().message, "Cannot read /etc/default/ufw: gone");
}

#[test]
fn commands() {
    assert_eq!(set_enabled(true), strings(&["ufw", "--force", "enable"]));
    assert_eq!(set_enabled(false), strings(&["ufw", "--force", "disable"]));
    assert_eq!(set_logging("medium"), strings(&["ufw", "logging", "medium"]));
    assert_eq!(set_default_policy(Direction::In, Policy::Reject), strings(&["ufw", "default", "reject", "in"]));
    assert_eq!(delete_rule(12), strings(&["ufw", "--force", "delete", "12"]));
    assert_eq!(allow_app("OpenSSH"), strings(&["ufw", "allow", "OpenSSH"]));
    assert_eq!(delete_app("OpenSSH"), strings(&["ufw", "--force", "delete", "allow", "OpenSSH"]));
    let simple = RuleParams {
        port: s("22"),
        action: Action::Allow,
        direction: Some(Direction::In),
        protocol: Some(Protocol::Tcp),
        from: None,
        to: None,
    };
    assert_eq!(add_rule(&simple), strings(&["ufw", "allow", "in", "22/tcp"]));
    let with_from = RuleParams {
        port: s("5432"),
        action: Action::Deny,
        direction: None,
        protocol: Some(Protocol::Udp),
        from: Some(s("10.0.0.0/8")),
        to: Some(s("")),
    };
    assert_eq!(
        add_rule(&with_from),
        strings(&["ufw", "deny", "from", "10.0.0.0/8", "port", "5432", "proto", "udp"])
    );
    let both = RuleParams {
        port: s("80"),
        action: Action::Limit,
        direction: None,
        protocol: Some(Protocol::Both),
        from: None,
        to: Some(s("192.168.0.2")),
    };
    assert_eq!(add_rule(&both), strings(&["ufw", "limit", "to", "192.168.0.2", "port", "80"]));
}

#[test]
fn command_outcomes() {
    assert_eq!(ufw_outcome(true, Some(0), s("Rules updated\n"), s("")).unwrap(), "Rules updated\n");
    assert_eq!(ufw_outcome(false, Some(126), s(""), s("")).unwrap_err().message, "Authentication cancelled");
    assert_eq!(ufw_outcome(false, Some(1), s("out"), s("")).unwrap_err().message, "UFW command failed: out");
    assert_eq!(ufw_outcome(false, Some(1), s("out"), s("ERROR: bad")).unwrap_err().message, "UFW command failed: ERROR: bad");
}

#[test]
fn app_allowed_ignores_case() {
    let rule = |port: &str, action: Action| UfwRule {
        number: 1,
        port: s(port),
        action,
        direction: Direction::In,
        from: s("Anywhere"),
        to: s("Anywhere"),
        v6: false,
    };
    let profile = AppProfile { name: s("OpenSSH"), title: s(""), description: s(""), ports: s("22/tcp") };
    assert!(is_app_allowed(&vec![rule("openssh", Action::Allow)], &profile));
    assert!(!is_app_allowed(&vec![rule("openssh", Action::Deny)], &profile));
    assert!(!is_app_allowed(&vec![rule("22/tcp", Action::Allow)], &profile));
    assert!(!is_app_allowed(&vec![], &profile));
}

const LOG_BLOCK: &str = "2024-05-01T10:00:00+0000 host kernel: [UFW BLOCK] IN=eth0 OUT= MAC=00 SRC=203.0.113.5 DST=192.168.1.2 LEN=60 PROTO=TCP SPT=51234 DPT=22 WINDOW=0";

#[test]
fn kernel_log_lines() {
    let e = parse_kernel_log_line(LOG_BLOCK).unwrap();
    assert_eq!(e.timestamp, "2024-05-01T10:00:00+0000");
    assert_eq!(e.action, "BLOCK");
    assert_eq!(e.src_ip, "203.0.113.5");
    assert_eq!(e.dst_ip, "192.168.1.2");
    assert_eq!(e.src_port, "51234");
    assert_eq!(e.dst_port, "22");
    assert_eq!(e.protocol, "TCP");
    assert_eq!(e.interface, "eth0");
    assert!(parse_kernel_log_line("kernel: something else").is_none());
    assert!(parse_kernel_log_line("kernel: [UFW AUDIT] IN=eth0").is_none());
    assert_eq!(extract_field("a SRC=1.2.3.4 b", "SRC="), "1.2.3.4");
    assert_eq!(extract_field("a b", "SRC="), "");
    assert_eq!(extract_field("a SRC=", "SRC="), "");
    assert_eq!(extract_field("SRC=192.168.1.1", "SRC="), "192.168.1.1");
    assert_eq!(extract_field("IN= OUT=eth0 SRC=1.2.3.4", "IN="), "");
    assert_eq!(extract_field("IN= OUT=eth0 SRC=1.2.3.4", "OUT="), "eth0");
    let out = LOG_BLOCK.replace("IN=eth0 OUT=", "IN= OUT=eth0");
    assert_eq!(parse_kernel_log_line(&out).unwrap().interface, "");
}

#[test]
fn blocked_events_fallback() {
    let journal = format!("noise\n{}\n", LOG_BLOCK);
    assert_eq!(read_blocked_events(&journal, &None, 10).len(), 1);
    let log = format!("{}\n{}\nother\n", LOG_BLOCK.replace("203.0.113.5", "1.1.1.1"), LOG_BLOCK);
    let from_log = read_blocked_events("-- No entries --\n", &Some(log.clone()), 2);
    assert_eq!(from_log.len(), 1);
    assert_eq!(from_log[0].src_ip, "203.0.113.5");
    let all = read_blocked_events("", &Some(log), 10);
    assert_eq!(all.len(), 2);
    assert_eq!(all[0].src_ip, "1.1.1.1");
    assert!(read_blocked_events("", &None, 10).is_empty());
}

fn event(action: &str, src: &str, port: &str, proto: &str) -> BlockedEvent {
    BlockedEvent {
        timestamp: s("t"),
        src_ip: s(src),
        dst_ip: s("d"),
        src_port: s("1"),
        dst_port: s(port),
        protocol: s(proto),
        interface: s("eth0"),
        action: s(action),
    }
}

#[test]
fn top_blocked() {
    let events = vec![
        event("BLOCK", "a", "22", "TCP"),
        event("BLOCK", "b", "80", "TCP"),
        event("BLOCK", "b", "22", "TCP"),
        event("ALLOW", "c", "22", "TCP"),
        event("BLOCK", "c", "53", "UDP"),
        event("BLOCK", "b", "", "TCP"),
        event("BLOCK", "", "22", "TCP"),
    ];
    let ips = top_blocked_ips(&events, 2);
    assert_eq!(ips.len(), 2);
    assert_eq!(ips[0], (s("b"), 3));
    assert_eq!(ips[1].1, 1);
    let all_ips = top_blocked_ips(&events, 10);
    assert_eq!(all_ips.len(), 3);
    let ports = top_blocked_ports(&events, 10);
    assert_eq!(ports[0], (s("22/TCP"), 3));
    assert_eq!(ports.len(), 3);
    assert!(top_blocked_ips(&events, 0).is_empty());
    for w in all_ips.windows(2) {
        assert!(w[0].1 >= w[1].1);
    }
}

#[test]
fn listening_ports_and_processes() {
    let ss = "Netid State  Recv-Q Send-Q Local Address:Port Peer Address:PortProcess\n\
tcp   LISTEN 0      128    0.0.0.0:22        0.0.0.0:*    users:((\"sshd\",pid=812,fd=3))\n\
tcp   LISTEN 0      4096   [::1]:631         [::]:*\n\
udp   UNCONN 0      0      *:0               *:*\n\
short line\n";
    let ports = parse_listening_ports(ss);
    assert_eq!(ports.len(), 2);
    assert_eq!(ports[0].protocol, "tcp");
    assert_eq!(ports[0].local_address, "0.0.0.0");
    assert_eq!(ports[0].port, 22);
    assert_eq!(ports[0].process, "sshd");
    assert_eq!(ports[1].local_address, "::1");
    assert_eq!(ports[1].port, 631);
    assert_eq!(ports[1].process, "");
    assert_eq!(extract_process_name("users:((\"cupsd\",pid=1,fd=7))"), "cupsd");
    assert_eq!(extract_process_name("(\"sshd\")"), "sshd");
}

#[test]
fn rule_counters() {
    let text = "Chain ufw-user-input (1 references)\n    pkts      bytes target     prot opt in     out     source               destination\n\
      12     720 ACCEPT     tcp  --  *      *       0.0.0.0/0            0.0.0.0/0            tcp dpt:22\n\
       0       0 ACCEPT     udp  --  *      *       0.0.0.0/0            0.0.0.0/0            udp dpt:53\n";
    let counters = parse_rule_counters(text);
    assert_eq!(counters.len(), 1);
    assert_eq!(counters[0].packets, 12);
    assert_eq!(counters[0].bytes, 720);
    assert_eq!(counters[0].target, "ACCEPT");
    assert_eq!(counters[0].description, "tcp 0.0.0.0/0 -> 0.0.0.0/0");
}

#[test]
fn monitor_debounce() {
    let mut m = UfwMonitor::new(0);
    assert!(!m.on_event(ChangeKind::Modify, 100_000_000));
    assert!(m.on_event(ChangeKind::Modify, 600_000_000));
    assert!(!m.on_event(ChangeKind::Create, 900_000_000));
    assert!(!m.on_event(ChangeKind::Access, 2_000_000_000));
    assert!(m.on_event(ChangeKind::Remove, 2_000_000_000));
    assert_eq!(m.last_event_ns, 2_000_000_000);
    assert!(!m.on_event(ChangeKind::Modify, 1_000_000_000));
    assert_eq!(m.last_event_ns, 2_000_000_000);
}

#[test]
fn interface_choices() {
    assert_eq!(log_limit(0), 50);
    assert_eq!(log_limit(2), 500);
    assert_eq!(log_limit(7), 1000);
    for i in 0..5u32 {
        assert_eq!(logging_index(logging_level(i)), i);
    }
    assert_eq!(logging_index("MEDIUM"), 2);
    assert_eq!(logging_index("on"), 0);
    assert_eq!(preset_port(1), "22");
    assert_eq!(preset_port(12), "5900");
    assert_eq!(preset_port(0), "");
    assert!(rule_from_form("   ", 0, 0, 0, "", "").is_none());
    let r = rule_from_form("8080", 3, 1, 2, " 10.0.0.1", "  ").unwrap();
    assert_eq!(r.action, Action::Limit);
    assert_eq!(r.direction, Some(Direction::Out));
    assert_eq!(r.protocol, Some(Protocol::Udp));
    assert_eq!(r.from, Some(s(" 10.0.0.1")));
    assert_eq!(r.to, None);
    let q = quick_add_rule(" 8080/tcp ").unwrap();
    assert_eq!(q.port, "8080/tcp");
    assert_eq!(add_rule(&q), strings(&["ufw", "allow", "8080/tcp"]));
    assert!(quick_add_rule("").is_none());
    let events = vec![event("BLOCK", "a", "22", "TCP"), event("ALLOW", "b", "80", "TCP")];
    assert_eq!(blocked_count(&events), 1);
    assert_eq!(event_title(&events[0]), "a → 22 (TCP)");
    let ports = parse_listening_ports("h\ntcp LISTEN 0 128 0.0.0.0:22 0.0.0.0:* users:((\"sshd\",pid=1,fd=3))\n");
    assert_eq!(listening_title(&ports[0]), "22/tcp 0.0.0.0 (sshd)");
}

#[test]
fn decisions_on_lower_case_text() {
    assert_eq!(lower_level_index("low"), 1);
    assert_eq!(lower_level_index("full"), 4);
    assert_eq!(lower_level_index("LOW"), 0);
    assert_eq!(lower_level_index("off"), 0);
    assert!(lowered_rule_allows("openssh", Action::Allow, "openssh"));
    assert!(!lowered_rule_allows("openssh", Action::Limit, "openssh"));
    assert!(!lowered_rule_allows("openssh", Action::Allow, "apache"));
    assert_eq!(profile_field("title"), Some(ProfileField::Title));
    assert_eq!(profile_field("description"), Some(ProfileField::Description));
    assert_eq!(profile_field("ports"), Some(ProfileField::Ports));
    assert_eq!(profile_field("Title"), None);
    assert_eq!(profile_field("port"), None);
}

#[test]
fn tuple_extra_fields_ignored() {
    for (t, v6) in [
        ("allow tcp 22 0.0.0.0/0 any 0.0.0.0/0 in", false),
        ("deny any 80 0.0.0.0/0 any 192.168.1.0/24 out", false),
        ("limit udp 53 ::/0 any ::/0 in", true),
    ] {
        let plain = parse_tuple(t, v6).unwrap();
        let padded = parse_tuple(&format!("  {} comment=web  ", t), v6).unwrap();
        assert_eq!(padded.port, plain.port);
        assert_eq!(padded.action, plain.action);
        assert_eq!(padded.direction, plain.direction);
        assert_eq!(padded.from, plain.from);
        assert_eq!(padded.to, plain.to);
        assert_eq!(padded.v6, plain.v6);
        assert_eq!(padded.number, plain.number);
    }
}
