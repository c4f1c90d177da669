//! The firewall's vocabulary: policies, rule actions, protocols and
//! directions as `ufw` writes and takes them, and the state read from its
//! configuration.
use vstd::prelude::*;
use crate::swap::zswap::{ascii_lower, eq_ignore_ascii_case, eq_ignore_ascii_case_exec};
use crate::text::chars_of;

verus! {

/// A default policy.
#[derive(Debug, Clone, Copy, PartialEq, Eq, Structural)]
pub enum Policy {
    Deny,
    Allow,
    Reject,
}

/// What a rule does with matching traffic.
#[derive(Debug, Clone, Copy, PartialEq, Eq, Structural)]
pub enum Action {
    Allow,
    Deny,
    Reject,
    Limit,
}

/// The protocols a rule applies to.
#[derive(Debug, Clone, Copy, PartialEq, Eq, Structural)]
pub enum Protocol {
    Both,
    Tcp,
    Udp,
}

/// The direction of traffic.
#[derive(Debug, Clone, Copy, PartialEq, Eq, Structural)]
pub enum Direction {
    In,
    Out,
}

/// The policy that a word of `ufw`'s configuration names, up to ASCII case:
/// `ACCEPT` and `ALLOW`, `DROP` and `DENY`, `REJECT`.
pub open spec fn policy_of(s: Seq<char>) -> Option<Policy> {
    if eq_ignore_ascii_case(s, "allow"@) || eq_ignore_ascii_case(s, "accept"@) {
        Some(Policy::Allow)
    } else if eq_ignore_ascii_case(s, "deny"@) || eq_ignore_ascii_case(s, "drop"@) {
        Some(Policy::Deny)
    } else if eq_ignore_ascii_case(s, "reject"@) {
        Some(Policy::Reject)
    } else {
        None
    }
}

/// The argument that names a policy on `ufw`'s command line.
pub open spec fn policy_arg(p: Policy) -> Seq<char> {
    match p {
        Policy::Deny => "deny"@,
        Policy::Allow => "allow"@,
        Policy::Reject => "reject"@,
    }
}

/// The position of a policy in the lists of the interface.
pub open spec fn policy_index(p: Policy) -> u32 {
    match p {
        Policy::Deny => 0,
        Policy::Allow => 1,
        Policy::Reject => 2,
    }
}

/// The policy at a position of the lists of the interface (`Deny` past the
/// end).
pub open spec fn policy_at(i: u32) -> Policy {
    if i == 1 {
        Policy::Allow
    } else if i == 2 {
        Policy::Reject
    } else {
        Policy::Deny
    }
}

impl Policy {
    /// Reads a policy as `ufw`'s configuration writes it, in any ASCII case.
    pub fn from_str(s: &str) -> (p: Option<Policy>)
        ensures
            p == policy_of(s@),
    {
        let v = chars_of(s);
        if eq_ignore_ascii_case_exec(&v, "allow") || eq_ignore_ascii_case_exec(&v, "accept") {
            Some(Policy::Allow)
        } else if eq_ignore_ascii_case_exec(&v, "deny") || eq_ignore_ascii_case_exec(&v, "drop") {
            Some(Policy::Deny)
        } else if eq_ignore_ascii_case_exec(&v, "reject") {
            Some(Policy::Reject)
        } else {
            None
        }
    }

    /// The argument for `ufw default`.
    pub fn as_ufw_arg(&self) -> (s: &'static str)
        ensures
            s@ == policy_arg(*self),
    {
        match self {
            Policy::Deny => "deny",
            Policy::Allow => "allow",
            Policy::Reject => "reject",
        }
    }

    /// Its position in the lists of the interface.
    pub fn index(&self) -> (i: u32)
        ensures
            i == policy_index(*self),
    {
        match self {
            Policy::Deny => 0,
            Policy::Allow => 1,
            Policy::Reject => 2,
        }
    }

    /// The policy at a position of the lists of the interface.
    pub fn from_index(i: u32) -> (p: Policy)
        ensures
            p == policy_at(i),
    {
        if i == 1 {
            Policy::Allow
        } else if i == 2 {
            Policy::Reject
        } else {
            Policy::Deny
        }
    }
}

/// The action that a word of a rule names, up to ASCII case.
pub open spec fn action_of(s: Seq<char>) -> Option<Action> {
    if eq_ignore_ascii_case(s, "allow"@) {
        Some(Action::Allow)
    } else if eq_ignore_ascii_case(s, "deny"@) {
        Some(Action::Deny)
    } else if eq_ignore_ascii_case(s, "reject"@) {
        Some(Action::Reject)
    } else if eq_ignore_ascii_case(s, "limit"@) {
        Some(Action::Limit)
    } else {
        None
    }
}

/// The command of `ufw` that adds a rule with an action.
pub open spec fn action_arg(a: Action) -> Seq<char> {
    match a {
        Action::Allow => "allow"@,
        Action::Deny => "deny"@,
        Action::Reject => "reject"@,
        Action::Limit => "limit"@,
    }
}

pub open spec fn action_index(a: Action) -> u32 {
    match a {
        Action::Allow => 0,
        Action::Deny => 1,
        Action::Reject => 2,
        Action::Limit => 3,
    }
}

/// The action at a position of the list of the interface (`Allow` past the
/// end).
pub open spec fn action_at(i: u32) -> Action {
    if i == 1 {
        Action::Deny
    } else if i == 2 {
        Action::Reject
    } else if i == 3 {
        Action::Limit
    } else {
        Action::Allow
    }
}

impl Action {
    /// Reads the action of a rule, in any ASCII case.
    pub fn from_str(s: &str) -> (a: Option<Action>)
        ensures
            a == action_of(s@),
    {
        let v = chars_of(s);
        if eq_ignore_ascii_case_exec(&v, "allow") {
            Some(Action::Allow)
        } else if eq_ignore_ascii_case_exec(&v, "deny") {
            Some(Action::Deny)
        } else if eq_ignore_ascii_case_exec(&v, "reject") {
            Some(Action::Reject)
        } else if eq_ignore_ascii_case_exec(&v, "limit") {
            Some(Action::Limit)
        } else {
            None
        }
    }

    /// The `ufw` command that adds a rule with this action.
    pub fn as_ufw_arg(&self) -> (s: &'static str)
        ensures
            s@ == action_arg(*self),
    {
        match self {
            Action::Allow => "allow",
            Action::Deny => "deny",
            Action::Reject => "reject",
            Action::Limit => "limit",
        }
    }

    /// Its position in the list of the interface.
    pub fn index(&self) -> (i: u32)
        ensures
            i == action_index(*self),
    {
        match self {
            Action::Allow => 0,
            Action::Deny => 1,
            Action::Reject => 2,
            Action::Limit => 3,
        }
    }

    /// The action at a position of the list of the interface.
    pub fn from_index(i: u32) -> (a: Action)
        ensures
            a == action_at(i),
    {
        if i == 1 {
            Action::Deny
        } else if i == 2 {
            Action::Reject
        } else if i == 3 {
            Action::Limit
        } else {
            Action::Allow
        }
    }
}

/// The protocol that a word of a rule names, up to ASCII case (`any` for
/// both).
pub open spec fn protocol_of(s: Seq<char>) -> Option<Protocol> {
    if eq_ignore_ascii_case(s, "tcp"@) {
        Some(Protocol::Tcp)
    } else if eq_ignore_ascii_case(s, "udp"@) {
        Some(Protocol::Udp)
    } else if eq_ignore_ascii_case(s, "any"@) {
        Some(Protocol::Both)
    } else {
        None
    }
}

/// The argument of `ufw … proto`; none for both protocols.
pub open spec fn protocol_arg(p: Protocol) -> Option<Seq<char>> {
    match p {
        Protocol::Both => None,
        Protocol::Tcp => Some("tcp"@),
        Protocol::Udp => Some("udp"@),
    }
}

pub open spec fn protocol_index(p: Protocol) -> u32 {
    match p {
        Protocol::Both => 0,
        Protocol::Tcp => 1,
        Protocol::Udp => 2,
    }
}

/// The protocol at a position of the list of the interface (`Both` past
/// the end).
pub open spec fn protocol_at(i: u32) -> Protocol {
    if i == 1 {
        Protocol::Tcp
    } else if i == 2 {
        Protocol::Udp
    } else {
        Protocol::Both
    }
}

impl Protocol {
    /// Reads the protocol of a rule, in any ASCII case.
    pub fn from_str(s: &str) -> (p: Option<Protocol>)
        ensures
            p == protocol_of(s@),
    {
        let v = chars_of(s);
        if eq_ignore_ascii_case_exec(&v, "tcp") {
            Some(Protocol::Tcp)
        } else if eq_ignore_ascii_case_exec(&v, "udp") {
            Some(Protocol::Udp)
        } else if eq_ignore_ascii_case_exec(&v, "any") {
            Some(Protocol::Both)
        } else {
            None
        }
    }

    /// The argument of `ufw … proto`, if the protocol restricts the rule.
    pub fn as_ufw_arg(&self) -> (s: Option<&'static str>)
        ensures
            match s {
                Some(a) => protocol_arg(*self) == Some(a@),
                None => protocol_arg(*self) is None,
            },
    {
        match self {
            Protocol::Both => None,
            Protocol::Tcp => Some("tcp"),
            Protocol::Udp => Some("udp"),
        }
    }

    /// Its position in the list of the interface.
    pub fn index(&self) -> (i: u32)
        ensures
            i == protocol_index(*self),
    {
        match self {
            Protocol::Both => 0,
            Protocol::Tcp => 1,
            Protocol::Udp => 2,
        }
    }

    /// The protocol at a position of the list of the interface.
    pub fn from_index(i: u32) -> (p: Protocol)
        ensures
            p == protocol_at(i),
    {
        if i == 1 {
            Protocol::Tcp
        } else if i == 2 {
            Protocol::Udp
        } else {
            Protocol::Both
        }
    }
}

/// The direction that a word of a rule names, up to ASCII case.
pub open spec fn direction_of(s: Seq<char>) -> Option<Direction> {
    if eq_ignore_ascii_case(s, "in"@) {
        Some(Direction::In)
    } else if eq_ignore_ascii_case(s, "out"@) {
        Some(Direction::Out)
    } else {
        None
    }
}

/// The direction argument on `ufw`'s command line.
pub open spec fn direction_arg(d: Direction) -> Seq<char> {
    match d {
        Direction::In => "in"@,
        Direction::Out => "out"@,
    }
}

impl Direction {
    /// Reads the direction of a rule, in any ASCII case.
    pub fn from_str(s: &str) -> (d: Option<Direction>)
        ensures
            d == direction_of(s@),
    {
        let v = chars_of(s);
        if eq_ignore_ascii_case_exec(&v, "in") {
            Some(Direction::In)
        } else if eq_ignore_ascii_case_exec(&v, "out") {
            Some(Direction::Out)
        } else {
            None
        }
    }

    /// The direction argument on `ufw`'s command line.
    pub fn as_ufw_arg(&self) -> (s: &'static str)
        ensures
            s@ == direction_arg(*self),
    {
        match self {
            Direction::In => "in",
            Direction::Out => "out",
        }
    }
}

/// A rule as the interface shows it.
#[derive(Debug, Clone)]
pub struct UfwRule {
    /// Position among all rules, IPv4 first, from 1.
    pub number: u32,
    /// Port, with `/tcp` or `/udp` when the rule is for one protocol.
    pub port: String,
    pub action: Action,
    pub direction: Direction,
    /// Source, `Anywhere` (or `Anywhere (v6)`) for any address.
    pub from: String,
    /// Destination, `Anywhere` (or `Anywhere (v6)`) for any address.
    pub to: String,
    pub v6: bool,
}

/// The state of the firewall.
#[derive(Debug, Clone)]
pub struct UfwStatus {
    pub active: bool,
    pub default_incoming: Policy,
    pub default_outgoing: Policy,
    pub rules: Vec<UfwRule>,
    pub logging: String,
}

/// Why reading or changing the firewall failed.
#[derive(Debug, Clone)]
pub struct UfwError {
    pub message: String,
}

/// An application profile of `/etc/ufw/applications.d`.
#[derive(Debug, Clone)]
pub struct AppProfile {
    pub name: String,
    pub title: String,
    pub description: String,
    pub ports: String,
}

/// What the user asked a new rule to be.
#[derive(Debug, Clone)]
pub struct RuleParams {
    pub port: String,
    pub action: Action,
    pub direction: Option<Direction>,
    pub protocol: Option<Protocol>,
    pub from: Option<String>,
    pub to: Option<String>,
}

pub struct UfwRuleView {
    pub number: u32,
    pub port: Seq<char>,
    pub action: Action,
    pub direction: Direction,
    pub from: Seq<char>,
    pub to: Seq<char>,
    pub v6: bool,
}

pub struct UfwStatusView {
    pub active: bool,
    pub default_incoming: Policy,
    pub default_outgoing: Policy,
    pub rules: Seq<UfwRuleView>,
    pub logging: Seq<char>,
}

pub struct AppProfileView {
    pub name: Seq<char>,
    pub title: Seq<char>,
    pub description: Seq<char>,
    pub ports: Seq<char>,
}

impl View for UfwRule {
    type V = UfwRuleView;

    open spec fn view(&self) -> UfwRuleView {
        UfwRuleView {
            number: self.number,
            port: self.port@,
            action: self.action,
            direction: self.direction,
            from: self.from@,
            to: self.to@,
            v6: self.v6,
        }
    }
}

impl View for UfwStatus {
    type V = UfwStatusView;

    open spec fn view(&self) -> UfwStatusView {
        UfwStatusView {
            active: self.active,
            default_incoming: self.default_incoming,
            default_outgoing: self.default_outgoing,
            rules: self.rules@.map_values(|r: UfwRule| r@),
            logging: self.logging@,
        }
    }
}

impl View for AppProfile {
    type V = AppProfileView;

    open spec fn view(&self) -> AppProfileView {
        AppProfileView {
            name: self.name@,
            title: self.title@,
            description: self.description@,
            ports: self.ports@,
        }
    }
}

/// Reading a policy back from the argument that names it gives the policy.
pub proof fn lemma_policy_arg_round_trip(p: Policy)
    ensures
        policy_of(policy_arg(p)) == Some(p),
{
    reveal_strlit("deny");
    reveal_strlit("allow");
    reveal_strlit("reject");
    reveal_strlit("accept");
    reveal_strlit("drop");
    match p {
        Policy::Deny => {
            assert(!eq_ignore_ascii_case("deny"@, "allow"@));
            assert(!eq_ignore_ascii_case("deny"@, "accept"@));
            assert(eq_ignore_ascii_case("deny"@, "deny"@));
        },
        Policy::Allow => {
            assert(eq_ignore_ascii_case("allow"@, "allow"@));
        },
        Policy::Reject => {
            assert(!eq_ignore_ascii_case("reject"@, "allow"@));
            assert(ascii_lower("reject"@[0]) != ascii_lower("accept"@[0]));
            assert(!eq_ignore_ascii_case("reject"@, "accept"@));
            assert(!eq_ignore_ascii_case("reject"@, "deny"@));
            assert(!eq_ignore_ascii_case("reject"@, "drop"@));
            assert(eq_ignore_ascii_case("reject"@, "reject"@));
        },
    }
}

/// The position of a policy in the interface's lists leads back to it.
pub proof fn lemma_policy_index_round_trip(p: Policy)
    ensures
        policy_at(policy_index(p)) == p,
{
}

/// The position of an action in the interface's list leads back to it.
pub proof fn lemma_action_index_round_trip(a: Action)
    ensures
        action_at(action_index(a)) == a,
{
}

/// The position of a protocol in the interface's list leads back to it.
pub proof fn lemma_protocol_index_round_trip(p: Protocol)
    ensures
        protocol_at(protocol_index(p)) == p,
{
}

/// Reading an action back from the command that adds it gives the action.
pub proof fn lemma_action_arg_round_trip(a: Action)
    ensures
        action_of(action_arg(a)) == Some(a),
{
    reveal_strlit("allow");
    reveal_strlit("deny");
    reveal_strlit("reject");
    reveal_strlit("limit");
    match a {
        Action::Allow => {
            assert(eq_ignore_ascii_case("allow"@, "allow"@));
        },
        Action::Deny => {
            assert(!eq_ignore_ascii_case("deny"@, "allow"@));
            assert(eq_ignore_ascii_case("deny"@, "deny"@));
        },
        Action::Reject => {
            assert(!eq_ignore_ascii_case("reject"@, "allow"@));
            assert(!eq_ignore_ascii_case("reject"@, "deny"@));
            assert(eq_ignore_ascii_case("reject"@, "reject"@));
        },
        Action::Limit => {
            assert(ascii_lower("limit"@[0]) != ascii_lower("allow"@[0]));
            assert(!eq_ignore_ascii_case("limit"@, "allow"@));
            assert(!eq_ignore_ascii_case("limit"@, "deny"@));
            assert(!eq_ignore_ascii_case("limit"@, "reject"@));
            assert(eq_ignore_ascii_case("limit"@, "limit"@));
        },
    }
}

/// Reading a direction back from its argument gives the direction.
pub proof fn lemma_direction_arg_round_trip(d: Direction)
    ensures
        direction_of(direction_arg(d)) == Some(d),
{
    reveal_strlit("in");
    reveal_strlit("out");
    match d {
        Direction::In => {
            assert(eq_ignore_ascii_case("in"@, "in"@));
        },
        Direction::Out => {
            assert(!eq_ignore_ascii_case("out"@, "in"@));
            assert(eq_ignore_ascii_case("out"@, "out"@));
        },
    }
}

} // verus!
