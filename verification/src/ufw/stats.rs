//! Firewall statistics: blocked and allowed packets from the kernel log,
//! listening ports from `ss -tulnp` and rule counters from `iptables`. The
//! caller runs the programs and reads the log; the library reads their text.
use vstd::prelude::*;
use crate::swap::exec::one;
use crate::swap::swapfile::after_first;
use crate::text::{
    chars_of, contains, eq_str, find, find_char, find_char_range, find_exec,
    lemma_find_char_from, lemma_find_from, lemma_rfind_from, lemma_starts_with_char, lines,
    lines_range, occurs_at, owned, parse_u16, parse_u16_range, parse_u64, parse_u64_range,
    push_range, push_str, ranges_view, ranges_within, rfind, rfind_exec, starts_with, string_of,
    string_of_range, strings_view, tokens, tokens_range, trim_set, trim_set_range,
    u64_to_string, is_ws, is_ws_char, word_len,
};

verus! {

/// A packet that the firewall logged.
#[derive(Debug, Clone)]
pub struct BlockedEvent {
    pub timestamp: String,
    pub src_ip: String,
    pub dst_ip: String,
    pub src_port: String,
    pub dst_port: String,
    pub protocol: String,
    pub interface: String,
    /// `BLOCK` or `ALLOW`.
    pub action: String,
}

/// A listening socket and the process that holds it.
#[derive(Debug, Clone)]
pub struct ListeningPort {
    pub protocol: String,
    pub local_address: String,
    pub port: u16,
    pub process: String,
}

/// Packet and byte counters of a rule.
#[derive(Debug, Clone)]
pub struct RuleCounter {
    pub packets: u64,
    pub bytes: u64,
    pub target: String,
    pub description: String,
}

pub struct BlockedEventView {
    pub timestamp: Seq<char>,
    pub src_ip: Seq<char>,
    pub dst_ip: Seq<char>,
    pub src_port: Seq<char>,
    pub dst_port: Seq<char>,
    pub protocol: Seq<char>,
    pub interface: Seq<char>,
    pub action: Seq<char>,
}

pub struct ListeningPortView {
    pub protocol: Seq<char>,
    pub local_address: Seq<char>,
    pub port: u16,
    pub process: Seq<char>,
}

pub struct RuleCounterView {
    pub packets: u64,
    pub bytes: u64,
    pub target: Seq<char>,
    pub description: Seq<char>,
}

impl View for BlockedEvent {
    type V = BlockedEventView;

    open spec fn view(&self) -> BlockedEventView {
        BlockedEventView {
            timestamp: self.timestamp@,
            src_ip: self.src_ip@,
            dst_ip: self.dst_ip@,
            src_port: self.src_port@,
            dst_port: self.dst_port@,
            protocol: self.protocol@,
            interface: self.interface@,
            action: self.action@,
        }
    }
}

impl View for ListeningPort {
    type V = ListeningPortView;

    open spec fn view(&self) -> ListeningPortView {
        ListeningPortView {
            protocol: self.protocol@,
            local_address: self.local_address@,
            port: self.port,
            process: self.process@,
        }
    }
}

impl View for RuleCounter {
    type V = RuleCounterView;

    open spec fn view(&self) -> RuleCounterView {
        RuleCounterView {
            packets: self.packets,
            bytes: self.bytes,
            target: self.target@,
            description: self.description@,
        }
    }
}

// ─── Kernel log ─────────────────────────────────────────────────────────────

/// The first whitespace-separated word of `s`, empty if there is none.
pub open spec fn first_token(s: Seq<char>) -> Seq<char> {
    if tokens(s).len() > 0 {
        tokens(s)[0]
    } else {
        Seq::empty()
    }
}

/// The characters at the start of `s` up to the first whitespace.
pub open spec fn leading_word(s: Seq<char>) -> Seq<char> {
    s.take(word_len(s) as int)
}

/// The value of `key` on a log line: the run of non-whitespace characters
/// that starts right after its first occurrence (empty where whitespace or
/// the end of the line follows the key), empty where the key does not occur.
pub open spec fn field_value(line: Seq<char>, key: Seq<char>) -> Seq<char> {
    match find(line, key) {
        Some(p) => leading_word(line.skip(p + key.len())),
        None => Seq::empty(),
    }
}

/// The packet that a kernel log line of the firewall describes: a line with
/// `[UFW BLOCK]` or `[UFW ALLOW]`; its first word is the time.
pub open spec fn event_of(line: Seq<char>) -> Option<BlockedEventView> {
    if !contains(line, "[UFW "@) {
        None
    } else {
        let action = if contains(line, "[UFW BLOCK]"@) {
            Some("BLOCK"@)
        } else if contains(line, "[UFW ALLOW]"@) {
            Some("ALLOW"@)
        } else {
            None
        };
        match action {
            None => None,
            Some(a) => Some(
                BlockedEventView {
                    timestamp: first_token(line),
                    src_ip: field_value(line, "SRC="@),
                    dst_ip: field_value(line, "DST="@),
                    src_port: field_value(line, "SPT="@),
                    dst_port: field_value(line, "DPT="@),
                    protocol: field_value(line, "PROTO="@),
                    interface: field_value(line, "IN="@),
                    action: a,
                },
            ),
        }
    }
}

/// The action of a logged packet is the one its line names: a line with
/// `[UFW BLOCK]` is a blocked packet; a line with `[UFW ALLOW]` and no
/// `[UFW BLOCK]` is an allowed one; and a packet counts as blocked only
/// where its line says `[UFW BLOCK]`.
pub proof fn lemma_event_action(line: Seq<char>)
    ensures
        contains(line, "[UFW BLOCK]"@) ==> (event_of(line) matches Some(e) && e.action == "BLOCK"@),
        contains(line, "[UFW ALLOW]"@) && !contains(line, "[UFW BLOCK]"@) ==> (event_of(line) matches Some(
            e,
        ) && e.action == "ALLOW"@),
        (event_of(line) matches Some(e) && e.action == "BLOCK"@) ==> contains(line, "[UFW BLOCK]"@),
        (event_of(line) matches Some(e) && e.action == "ALLOW"@) ==> contains(line, "[UFW ALLOW]"@),
{
    reveal_strlit("[UFW ");
    reveal_strlit("[UFW BLOCK]");
    reveal_strlit("[UFW ALLOW]");
    reveal_strlit("BLOCK");
    reveal_strlit("ALLOW");
    assert("BLOCK"@[0] != "ALLOW"@[0]);
    let pre = "[UFW "@;
    if contains(line, "[UFW BLOCK]"@) {
        crate::text::lemma_contains_witness(line, "[UFW BLOCK]"@);
        let j = find(line, "[UFW BLOCK]"@)->0;
        let whole = "[UFW BLOCK]"@;
        assert(whole.len() == 11);
        assert(line.subrange(j, j + 11) == whole);
        assert(whole.subrange(0, 5) =~= pre);
        assert(line.subrange(j, j + pre.len()) =~= line.subrange(j, j + 11).subrange(0, 5));
        assert(occurs_at(line, pre, j));
        crate::text::lemma_contains_at(line, pre, j);
    }
    if contains(line, "[UFW ALLOW]"@) {
        crate::text::lemma_contains_witness(line, "[UFW ALLOW]"@);
        let j = find(line, "[UFW ALLOW]"@)->0;
        let whole = "[UFW ALLOW]"@;
        assert(whole.len() == 11);
        assert(line.subrange(j, j + 11) == whole);
        assert(whole.subrange(0, 5) =~= pre);
        assert(line.subrange(j, j + pre.len()) =~= line.subrange(j, j + 11).subrange(0, 5));
        assert(occurs_at(line, pre, j));
        crate::text::lemma_contains_at(line, pre, j);
    }
}

/// The packets that the lines describe, in order.
pub open spec fn events_of(ls: Seq<Seq<char>>) -> Seq<BlockedEventView>
    decreases ls.len(),
{
    if ls.len() == 0 {
        Seq::empty()
    } else {
        match event_of(ls.last()) {
            Some(e) => events_of(ls.drop_last()).push(e),
            None => events_of(ls.drop_last()),
        }
    }
}

/// The last `n` of the lines (all of them if there are fewer).
pub open spec fn last_lines(ls: Seq<Seq<char>>, n: nat) -> Seq<Seq<char>> {
    if ls.len() <= n {
        ls
    } else {
        ls.skip(ls.len() - n)
    }
}

/// The logged packets: those of the kernel journal, or when it has none,
/// those among the last `limit` lines of `/var/log/ufw.log`.
pub open spec fn blocked_events(journal: Seq<char>, log: Option<Seq<char>>, limit: nat) -> Seq<
    BlockedEventView,
> {
    if events_of(lines(journal)).len() > 0 {
        events_of(lines(journal))
    } else {
        match log {
            Some(c) => events_of(last_lines(lines(c), limit)),
            None => Seq::empty(),
        }
    }
}

/// The first word of `v[lo..hi]`, as a `String`.
fn first_token_exec(v: &Vec<char>, lo: usize, hi: usize) -> (s: String)
    requires
        lo <= hi <= v.len(),
    ensures
        s@ == first_token(v@.subrange(lo as int, hi as int)),
{
    let t = tokens_range(v, lo, hi);
    if t.len() > 0 {
        let (a, b) = t[0];
        assert(ranges_view(v@, t@)[0] == v@.subrange(a as int, b as int));
        string_of_range(v, a, b)
    } else {
        String::new()
    }
}

/// The characters of `v` from `lo` up to the first whitespace before `hi`.
fn leading_word_exec(v: &Vec<char>, lo: usize, hi: usize) -> (s: String)
    requires
        lo <= hi <= v.len(),
    ensures
        s@ == leading_word(v@.subrange(lo as int, hi as int)),
{
    let ghost w = v@.subrange(lo as int, hi as int);
    let mut j = lo;
    while j < hi && !is_ws_char(v[j])
        invariant
            lo <= j <= hi <= v.len(),
            w == v@.subrange(lo as int, hi as int),
            word_len(w) == (j - lo) + word_len(v@.subrange(j as int, hi as int)),
        decreases hi - j,
    {
        assert(v@.subrange(j as int, hi as int).drop_first() =~= v@.subrange(j + 1, hi as int));
        j += 1;
    }
    assert(word_len(w) == j - lo);
    assert(w.take(j - lo) =~= v@.subrange(lo as int, j as int));
    string_of_range(v, lo, j)
}

/// The value of `key` on the log line `v`.
fn field_of_chars(line: &Vec<char>, key: &str) -> (s: String)
    ensures
        s@ == field_value(line@, key@),
{
    let k = chars_of(key);
    match find_exec(line, &k) {
        Some(p) => {
            proof {
                lemma_find_from(line@, k@, 0);
            }
            assert(occurs_at(line@, k@, p as int));
            assert(p + k@.len() <= line@.len());
            assert(line@.skip(p + k@.len()) =~= line@.subrange(p + k@.len(), line@.len() as int));
            let n = line.len();
            let klen = k.len();
            assert(p + klen <= n);
            let start = p + klen;
            leading_word_exec(line, start, n)
        },
        None => String::new(),
    }
}

/// Whether `pat` occurs in `v`.
fn contains_str(v: &Vec<char>, pat: &str) -> (b: bool)
    ensures
        b == contains(v@, pat@),
{
    let p = chars_of(pat);
    find_exec(v, &p).is_some()
}

/// The value of `key` on a firewall log line (`SRC=192.168.1.1` gives
/// `192.168.1.1` for `SRC=`): the characters right after the key up to the
/// next whitespace, so empty for `IN= OUT=eth0`; empty where the key does
/// not occur.
pub fn extract_field(line: &str, key: &str) -> (s: String)
    ensures
        s@ == field_value(line@, key@),
{
    let v = chars_of(line);
    field_of_chars(&v, key)
}

/// The packet that a kernel log line of the firewall describes.
pub fn parse_kernel_log_line(line: &str) -> (r: Option<BlockedEvent>)
    ensures
        match r {
            Some(e) => event_of(line@) == Some(e@),
            None => event_of(line@) is None,
        },
{
    let v = chars_of(line);
    event_of_chars(&v)
}

/// The packet that the log line `line` describes.
fn event_of_chars(line: &Vec<char>) -> (r: Option<BlockedEvent>)
    ensures
        match r {
            Some(e) => event_of(line@) == Some(e@),
            None => event_of(line@) is None,
        },
{
    if !contains_str(line, "[UFW ") {
        return None;
    }
    assert(line@.subrange(0, line@.len() as int) =~= line@);
    let timestamp = first_token_exec(line, 0, line.len());
    let action = if contains_str(line, "[UFW BLOCK]") {
        owned("BLOCK")
    } else if contains_str(line, "[UFW ALLOW]") {
        owned("ALLOW")
    } else {
        return None;
    };
    Some(
        BlockedEvent {
            timestamp,
            src_ip: field_of_chars(line, "SRC="),
            dst_ip: field_of_chars(line, "DST="),
            src_port: field_of_chars(line, "SPT="),
            dst_port: field_of_chars(line, "DPT="),
            protocol: field_of_chars(line, "PROTO="),
            interface: field_of_chars(line, "IN="),
            action,
        },
    )
}

/// The packets that the lines `ls[from..]` of `v` describe.
fn events_of_exec(v: &Vec<char>, ls: &Vec<(usize, usize)>, from: usize) -> (r: Vec<BlockedEvent>)
    requires
        from <= ls.len(),
        ranges_within(ls@, 0, v@.len() as int),
    ensures
        r@.map_values(|e: BlockedEvent| e@) == events_of(ranges_view(v@, ls@).skip(from as int)),
{
    let ghost all = ranges_view(v@, ls@).skip(from as int);
    let mut r: Vec<BlockedEvent> = Vec::new();
    let mut i: usize = from;
    assert(all.take(0) =~= Seq::<Seq<char>>::empty());
    while i < ls.len()
        invariant
            from <= i <= ls.len(),
            all == ranges_view(v@, ls@).skip(from as int),
            ranges_within(ls@, 0, v@.len() as int),
            r@.map_values(|e: BlockedEvent| e@) == events_of(all.take(i - from)),
        decreases ls.len() - i,
    {
        let (lo, hi) = ls[i];
        assert(all.take(i - from + 1).drop_last() =~= all.take(i - from));
        assert(all.take(i - from + 1).last() == v@.subrange(lo as int, hi as int));
        let mut lv: Vec<char> = Vec::new();
        push_range(&mut lv, v, lo, hi);
        assert(lv@ =~= v@.subrange(lo as int, hi as int));
        let ghost before = r@.map_values(|e: BlockedEvent| e@);
        match event_of_chars(&lv) {
            Some(e) => {
                let ghost ev = e@;
                r.push(e);
                assert(r@.map_values(|e: BlockedEvent| e@) =~= before.push(ev));
            },
            None => {},
        }
        i += 1;
    }
    assert(all.take(ls.len() - from) =~= all);
    r
}

/// The arguments of `journalctl` that read the last `limit` kernel messages.
pub fn journal_args(limit: usize) -> (r: Vec<String>)
    ensures
        strings_view(r@) == seq![
            "-q"@,
            "-k"@,
            "-n"@,
            crate::text::dec_string(limit as nat),
            "-o"@,
            "short-iso"@,
        ],
{
    let mut r: Vec<String> = Vec::new();
    r.push(owned("-q"));
    r.push(owned("-k"));
    r.push(owned("-n"));
    r.push(u64_to_string(limit as u64));
    r.push(owned("-o"));
    r.push(owned("short-iso"));
    assert(strings_view(r@) =~= seq![
        "-q"@,
        "-k"@,
        "-n"@,
        crate::text::dec_string(limit as nat),
        "-o"@,
        "short-iso"@,
    ]);
    r
}

/// The logged packets, from the output of `journalctl` and, where it shows
/// none, the contents of `/var/log/ufw.log` (`None` where it could not be
/// read), of whose last `limit` lines the packets are taken.
pub fn read_blocked_events(journal: &str, ufw_log: &Option<String>, limit: usize) -> (r: Vec<
    BlockedEvent,
>)
    ensures
        r@.map_values(|e: BlockedEvent| e@) == blocked_events(
            journal@,
            match ufw_log {
                Some(c) => Some(c@),
                None => None,
            },
            limit as nat,
        ),
{
    let v = chars_of(journal);
    let ls = lines_range(&v, 0, v.len());
    assert(v@.subrange(0, v@.len() as int) =~= v@);
    assert(ranges_view(v@, ls@).skip(0) =~= ranges_view(v@, ls@));
    let events = events_of_exec(&v, &ls, 0);
    if events.len() > 0 {
        return events;
    }
    match ufw_log {
        Some(c) => {
            let w = chars_of(c.as_str());
            let lw = lines_range(&w, 0, w.len());
            assert(w@.subrange(0, w@.len() as int) =~= w@);
            let from = if lw.len() <= limit {
                0
            } else {
                lw.len() - limit
            };
            assert(ranges_view(w@, lw@).skip(from as int) =~= last_lines(lines(w@), limit as nat));
            events_of_exec(&w, &lw, from)
        },
        None => Vec::new(),
    }
}

// ─── Listening ports ────────────────────────────────────────────────────────

/// The words joined by single spaces.
pub open spec fn join_words(ws: Seq<Seq<char>>) -> Seq<char>
    decreases ws.len(),
{
    if ws.len() == 0 {
        Seq::empty()
    } else if ws.len() == 1 {
        ws[0]
    } else {
        join_words(ws.drop_last()) + " "@ + ws.last()
    }
}

pub open spec fn process_trim_set() -> Seq<char> {
    seq!['(', ')', '"']
}

/// The process name in the `Process` column of `ss`: what follows `(("` up
/// to the next `"`, or else the column without its parentheses and quotes.
pub open spec fn process_name(s: Seq<char>) -> Seq<char> {
    let quoted = match find(s, "((\""@) {
        Some(start) => match find_char(s.skip(start + 3), '"') {
            Some(end) => Some(s.skip(start + 3).take(end)),
            None => None,
        },
        None => None,
    };
    match quoted {
        Some(n) => n,
        None => trim_set(s, process_trim_set()),
    }
}

/// Address and port of a `LocalAddress:Port` column (`[address]:port` for
/// IPv6).
pub open spec fn split_local(local: Seq<char>) -> Option<(Seq<char>, Seq<char>)> {
    if starts_with(local, "["@) {
        match rfind(local, "]:"@) {
            Some(pos) => Some((local.subrange(1, pos), local.skip(pos + 2))),
            None => None,
        }
    } else {
        match rfind(local, ":"@) {
            Some(pos) => Some((local.take(pos), local.skip(pos + 1))),
            None => None,
        }
    }
}

/// The listening socket that a line of `ss -tulnp` describes: one with six
/// columns or more, an address with a port, and a port other than 0.
pub open spec fn listening_of(line: Seq<char>) -> Option<ListeningPortView> {
    let f = tokens(line);
    if f.len() < 6 {
        None
    } else {
        match split_local(f[4]) {
            None => None,
            Some(ap) => {
                let port: u16 = match parse_u16(ap.1) {
                    Some(n) => n,
                    None => 0,
                };
                if port == 0 {
                    None
                } else {
                    Some(
                        ListeningPortView {
                            protocol: f[0],
                            local_address: ap.0,
                            port,
                            process: if f.len() >= 7 {
                                process_name(join_words(f.skip(6)))
                            } else {
                                Seq::empty()
                            },
                        },
                    )
                }
            },
        }
    }
}

pub open spec fn ports_of(ls: Seq<Seq<char>>) -> Seq<ListeningPortView>
    decreases ls.len(),
{
    if ls.len() == 0 {
        Seq::empty()
    } else {
        match listening_of(ls.last()) {
            Some(p) => ports_of(ls.drop_last()).push(p),
            None => ports_of(ls.drop_last()),
        }
    }
}

/// The listening sockets of the output of `ss -tulnp` (after its header).
pub open spec fn listening_ports(text: Seq<char>) -> Seq<ListeningPortView> {
    ports_of(after_first(lines(text)))
}

/// The process name in the `Process` column of `ss`.
pub fn extract_process_name(proc_str: &str) -> (s: String)
    ensures
        s@ == process_name(proc_str@),
{
    let v = chars_of(proc_str);
    let pat = chars_of("((\"");
    proof {
        reveal_strlit("((\"");
    }
    match find_exec(&v, &pat) {
        Some(start) => {
            proof {
                lemma_find_from(v@, pat@, 0);
            }
            assert(v@.skip(start + 3) =~= v@.subrange(start + 3, v@.len() as int));
            match find_char_range(&v, start + 3, v.len(), '"') {
                Some(end) => {
                    proof {
                        lemma_find_char_from(v@.skip(start + 3), '"', 0);
                    }
                    assert(v@.skip(start + 3).take(end as int) =~= v@.subrange(
                        start + 3,
                        start + 3 + end,
                    ));
                    return string_of_range(&v, start + 3, start + 3 + end);
                },
                None => {},
            }
        },
        None => {},
    }
    let mut set: Vec<char> = Vec::new();
    set.push('(');
    set.push(')');
    set.push('"');
    assert(set@ =~= process_trim_set());
    let (a, b) = trim_set_range(&v, 0, v.len(), &set);
    assert(v@.subrange(0, v@.len() as int) =~= v@);
    string_of_range(&v, a, b)
}

/// The words `v[t[from..]]` joined by single spaces.
fn join_words_exec(v: &Vec<char>, t: &Vec<(usize, usize)>, from: usize) -> (s: String)
    requires
        from <= t.len(),
        ranges_within(t@, 0, v@.len() as int),
    ensures
        s@ == join_words(ranges_view(v@, t@).skip(from as int)),
{
    let ghost ws = ranges_view(v@, t@).skip(from as int);
    let mut out: Vec<char> = Vec::new();
    let mut i: usize = from;
    assert(ws.take(0) =~= Seq::<Seq<char>>::empty());
    while i < t.len()
        invariant
            from <= i <= t.len(),
            ws == ranges_view(v@, t@).skip(from as int),
            ranges_within(t@, 0, v@.len() as int),
            out@ == join_words(ws.take(i - from)),
        decreases t.len() - i,
    {
        let (a, b) = t[i];
        assert(ws.take(i - from + 1).drop_last() =~= ws.take(i - from));
        assert(ws.take(i - from + 1).last() == v@.subrange(a as int, b as int));
        if i > from {
            push_str(&mut out, " ");
        }
        push_range(&mut out, v, a, b);
        proof {
            if i == from {
                assert(out@ =~= ws.take(1)[0]);
            }
        }
        i += 1;
    }
    assert(ws.take(t.len() - from) =~= ws);
    string_of(&out)
}

/// Address and port ranges of the column `v[a..b]`.
fn split_local_exec(v: &Vec<char>, a: usize, b: usize) -> (r: Option<(usize, usize, usize, usize)>)
    requires
        a <= b <= v.len(),
    ensures
        match r {
            Some((p, q, s, e)) => p <= q <= v.len() && s <= e <= v.len() && split_local(
                v@.subrange(a as int, b as int),
            ) == Some((v@.subrange(p as int, q as int), v@.subrange(s as int, e as int))),
            None => split_local(v@.subrange(a as int, b as int)) is None,
        },
{
    let ghost local = v@.subrange(a as int, b as int);
    let mut lv: Vec<char> = Vec::new();
    push_range(&mut lv, v, a, b);
    assert(lv@ =~= local);
    proof {
        reveal_strlit("[");
        assert("["@ =~= seq!['[']);
        lemma_starts_with_char(local, '[');
    }
    if a < b && v[a] == '[' {
        let pat = chars_of("]:");
        match rfind_exec(&lv, &pat) {
            Some(pos) => {
                proof {
                    reveal_strlit("]:");
                    lemma_rfind_from(local, pat@, local.len() - pat@.len());
                    assert(local.subrange(pos as int, pos + 2)[0] == local[pos as int]);
                }
                assert(local.subrange(1, pos as int) =~= v@.subrange(a + 1, a + pos));
                assert(local.skip(pos + 2) =~= v@.subrange(a + pos + 2, b as int));
                Some((a + 1, a + pos, a + pos + 2, b))
            },
            None => None,
        }
    } else {
        let pat = chars_of(":");
        match rfind_exec(&lv, &pat) {
            Some(pos) => {
                proof {
                    reveal_strlit(":");
                    lemma_rfind_from(local, pat@, local.len() - pat@.len());
                }
                assert(local.take(pos as int) =~= v@.subrange(a as int, a + pos));
                assert(local.skip(pos + 1) =~= v@.subrange(a + pos + 1, b as int));
                Some((a, a + pos, a + pos + 1, b))
            },
            None => None,
        }
    }
}

/// The listening socket that the line `v[lo..hi]` of `ss -tulnp` describes.
fn listening_of_exec(v: &Vec<char>, lo: usize, hi: usize) -> (r: Option<ListeningPort>)
    requires
        lo <= hi <= v.len(),
    ensures
        match r {
            Some(p) => listening_of(v@.subrange(lo as int, hi as int)) == Some(p@),
            None => listening_of(v@.subrange(lo as int, hi as int)) is None,
        },
{
    let t = tokens_range(v, lo, hi);
    let ghost f = ranges_view(v@, t@);
    if t.len() < 6 {
        return None;
    }
    let (a4, b4) = t[4];
    let (a0, b0) = t[0];
    assert(f[4] == v@.subrange(a4 as int, b4 as int));
    assert(f[0] == v@.subrange(a0 as int, b0 as int));
    let (p, q, s, e) = match split_local_exec(v, a4, b4) {
        Some(x) => x,
        None => {
            return None;
        },
    };
    let port: u16 = match parse_u16_range(v, s, e) {
        Some(n) => n,
        None => 0,
    };
    if port == 0 {
        return None;
    }
    let process = if t.len() >= 7 {
        let joined = join_words_exec(v, &t, 6);
        extract_process_name(joined.as_str())
    } else {
        String::new()
    };
    Some(
        ListeningPort {
            protocol: string_of_range(v, a0, b0),
            local_address: string_of_range(v, p, q),
            port,
            process,
        },
    )
}

/// The listening sockets that the output of `ss -tulnp` lists.
pub fn parse_listening_ports(text: &str) -> (r: Vec<ListeningPort>)
    ensures
        r@.map_values(|p: ListeningPort| p@) == listening_ports(text@),
{
    let v = chars_of(text);
    let ls = lines_range(&v, 0, v.len());
    assert(v@.subrange(0, v@.len() as int) =~= v@);
    let ghost all = ranges_view(v@, ls@);
    let ghost rest = after_first(all);
    let mut r: Vec<ListeningPort> = Vec::new();
    if ls.len() == 0 {
        assert(rest =~= Seq::<Seq<char>>::empty());
        return r;
    }
    let mut i: usize = 1;
    assert(rest.take(0) =~= Seq::<Seq<char>>::empty());
    while i < ls.len()
        invariant
            1 <= i <= ls.len(),
            all == ranges_view(v@, ls@),
            all == lines(v@),
            v@ == text@,
            rest == after_first(all),
            ranges_within(ls@, 0, v@.len() as int),
            r@.map_values(|p: ListeningPort| p@) == ports_of(rest.take(i - 1)),
        decreases ls.len() - i,
    {
        let (lo, hi) = ls[i];
        assert(rest.take(i as int).drop_last() =~= rest.take(i - 1));
        assert(rest.take(i as int).last() == v@.subrange(lo as int, hi as int));
        let ghost before = r@.map_values(|p: ListeningPort| p@);
        match listening_of_exec(&v, lo, hi) {
            Some(p) => {
                let ghost pv = p@;
                r.push(p);
                assert(r@.map_values(|p: ListeningPort| p@) =~= before.push(pv));
            },
            None => {},
        }
        i += 1;
    }
    assert(rest.take(ls.len() - 1) =~= rest);
    r
}

/// The arguments of `ss` that list the listening sockets with their
/// processes.
pub fn ss_args() -> (r: Vec<String>)
    ensures
        strings_view(r@) == seq!["-tulnp"@],
{
    one("-tulnp")
}

// ─── Rule counters ──────────────────────────────────────────────────────────

/// The counter that a line of `iptables -L ufw-user-input -v -x -n`
/// describes: one with nine columns or more, not a `Chain` header, and with
/// packets counted.
pub open spec fn counter_of(line: Seq<char>) -> Option<RuleCounterView> {
    let f = tokens(line);
    if f.len() < 9 || f[0] == "Chain"@ {
        None
    } else {
        let packets: u64 = match parse_u64(f[0]) {
            Some(n) => n,
            None => 0,
        };
        if packets > 0 {
            Some(
                RuleCounterView {
                    packets,
                    bytes: match parse_u64(f[1]) {
                        Some(n) => n,
                        None => 0,
                    },
                    target: f[2],
                    description: f[3] + " "@ + f[7] + " -> "@ + f[8],
                },
            )
        } else {
            None
        }
    }
}

/// The description of a counted rule reads, word by word, as its protocol
/// column, its source column (the eighth), `->` and its destination column
/// (the ninth): for a line whose columns are `f`, the words of the
/// description are `f[3]`, `f[7]`, `->`, `f[8]`.
pub proof fn lemma_counter_description(line: Seq<char>)
    requires
        counter_of(line) is Some,
    ensures
        tokens(counter_of(line)->0.description) == seq![
            tokens(line)[3],
            tokens(line)[7],
            "->"@,
            tokens(line)[8],
        ],
{
    let f = tokens(line);
    crate::text::lemma_tokens_are_words(line);
    reveal_strlit(" ");
    reveal_strlit(" -> ");
    reveal_strlit("->");
    let (a, b, c) = (f[3], f[7], f[8]);
    let arrow = "->"@;
    let sp = seq![' '];
    assert(" "@ =~= sp);
    assert(" -> "@ =~= sp + arrow + sp);
    assert(is_ws(' '));
    assert forall|k: int| 0 <= k < arrow.len() implies !is_ws(#[trigger] arrow[k]) by {}
    assert(!is_ws(a[0]));
    let d = a + " "@ + b + " -> "@ + c;
    assert(counter_of(line)->0.description == d);
    // d = a + (sp + (b + (sp + (arrow + (sp + c)))))
    let r4 = sp + c;
    let r3 = arrow + r4;
    let r2 = sp + r3;
    let r1 = b + r2;
    let r0 = sp + r1;
    assert(d =~= a + r0);
    crate::text::lemma_tokens_word(c);
    crate::text::lemma_tokens_word(b);
    crate::text::lemma_tokens_word(a);
    crate::text::lemma_tokens_word(arrow);
    assert(forall|i: int| 0 <= i < sp.len() ==> is_ws(#[trigger] sp[i]));
    crate::text::lemma_tokens_skip_ws(sp, c);
    assert(r4[0] == ' ');
    crate::text::lemma_tokens_append(arrow, r4);
    crate::text::lemma_tokens_skip_ws(sp, r3);
    assert(r2[0] == ' ');
    crate::text::lemma_tokens_append(b, r2);
    crate::text::lemma_tokens_skip_ws(sp, r1);
    assert(r0[0] == ' ');
    crate::text::lemma_tokens_append(a, r0);
    assert(tokens(d) =~= seq![a] + (seq![b] + (seq![arrow] + seq![c])));
}

pub open spec fn counters_of(ls: Seq<Seq<char>>) -> Seq<RuleCounterView>
    decreases ls.len(),
{
    if ls.len() == 0 {
        Seq::empty()
    } else {
        match counter_of(ls.last()) {
            Some(c) => counters_of(ls.drop_last()).push(c),
            None => counters_of(ls.drop_last()),
        }
    }
}

/// The counters of the output of `iptables` (after its two header lines).
pub open spec fn rule_counters(text: Seq<char>) -> Seq<RuleCounterView> {
    let ls = lines(text);
    if ls.len() <= 2 {
        Seq::empty()
    } else {
        counters_of(ls.skip(2))
    }
}

/// The counter that the line `v[lo..hi]` describes.
fn counter_of_exec(v: &Vec<char>, lo: usize, hi: usize) -> (r: Option<RuleCounter>)
    requires
        lo <= hi <= v.len(),
    ensures
        match r {
            Some(c) => counter_of(v@.subrange(lo as int, hi as int)) == Some(c@),
            None => counter_of(v@.subrange(lo as int, hi as int)) is None,
        },
{
    let t = tokens_range(v, lo, hi);
    let ghost f = ranges_view(v@, t@);
    if t.len() < 9 {
        return None;
    }
    let (a0, b0) = t[0];
    assert(f[0] == v@.subrange(a0 as int, b0 as int));
    if eq_str(v, a0, b0, "Chain") {
        return None;
    }
    let packets: u64 = match parse_u64_range(v, a0, b0) {
        Some(n) => n,
        None => 0,
    };
    if packets == 0 {
        return None;
    }
    let (a1, b1) = t[1];
    let (a2, b2) = t[2];
    let (a3, b3) = t[3];
    let (a7, b7) = t[7];
    let (a8, b8) = t[8];
    assert(f[1] == v@.subrange(a1 as int, b1 as int));
    assert(f[2] == v@.subrange(a2 as int, b2 as int));
    assert(f[3] == v@.subrange(a3 as int, b3 as int));
    assert(f[7] == v@.subrange(a7 as int, b7 as int));
    assert(f[8] == v@.subrange(a8 as int, b8 as int));
    let bytes: u64 = match parse_u64_range(v, a1, b1) {
        Some(n) => n,
        None => 0,
    };
    let mut d: Vec<char> = Vec::new();
    push_range(&mut d, v, a3, b3);
    push_str(&mut d, " ");
    push_range(&mut d, v, a7, b7);
    push_str(&mut d, " -> ");
    push_range(&mut d, v, a8, b8);
    Some(
        RuleCounter {
            packets,
            bytes,
            target: string_of_range(v, a2, b2),
            description: string_of(&d),
        },
    )
}

/// The counters of the rules that matched packets, from the output of
/// `iptables -L ufw-user-input -v -x -n`.
pub fn parse_rule_counters(text: &str) -> (r: Vec<RuleCounter>)
    ensures
        r@.map_values(|c: RuleCounter| c@) == rule_counters(text@),
{
    let v = chars_of(text);
    let ls = lines_range(&v, 0, v.len());
    assert(v@.subrange(0, v@.len() as int) =~= v@);
    let ghost all = ranges_view(v@, ls@);
    let mut r: Vec<RuleCounter> = Vec::new();
    if ls.len() <= 2 {
        return r;
    }
    let ghost rest = all.skip(2);
    let mut i: usize = 2;
    assert(rest.take(0) =~= Seq::<Seq<char>>::empty());
    while i < ls.len()
        invariant
            2 <= i <= ls.len(),
            all == ranges_view(v@, ls@),
            all == lines(v@),
            v@ == text@,
            rest == all.skip(2),
            ranges_within(ls@, 0, v@.len() as int),
            r@.map_values(|c: RuleCounter| c@) == counters_of(rest.take(i - 2)),
        decreases ls.len() - i,
    {
        let (lo, hi) = ls[i];
        assert(rest.take(i - 1).drop_last() =~= rest.take(i - 2));
        assert(rest.take(i - 1).last() == v@.subrange(lo as int, hi as int));
        let ghost before = r@.map_values(|c: RuleCounter| c@);
        match counter_of_exec(&v, lo, hi) {
            Some(c) => {
                let ghost cv = c@;
                r.push(c);
                assert(r@.map_values(|c: RuleCounter| c@) =~= before.push(cv));
            },
            None => {},
        }
        i += 1;
    }
    assert(rest.take(ls.len() - 2) =~= rest);
    r
}

/// The arguments of `iptables` that list the counters of the user's rules.
pub fn iptables_args() -> (r: Vec<String>)
    ensures
        strings_view(r@) == seq!["-L"@, "ufw-user-input"@, "-v"@, "-x"@, "-n"@],
{
    let mut r: Vec<String> = Vec::new();
    r.push(owned("-L"));
    r.push(owned("ufw-user-input"));
    r.push(owned("-v"));
    r.push(owned("-x"));
    r.push(owned("-n"));
    assert(strings_view(r@) =~= seq!["-L"@, "ufw-user-input"@, "-v"@, "-x"@, "-n"@]);
    r
}

} // verus!

verus! {

// ─── Top sources and ports ──────────────────────────────────────────────────

/// How many of the keys are `k`.
pub open spec fn count_of(keys: Seq<Option<Seq<char>>>, k: Seq<char>) -> nat
    decreases keys.len(),
{
    if keys.len() == 0 {
        0
    } else {
        count_of(keys.drop_last(), k) + if keys.last() == Some(k) {
            1nat
        } else {
            0nat
        }
    }
}

/// The keys that occur, each once, in the order of their first occurrence.
pub open spec fn distinct_keys(keys: Seq<Option<Seq<char>>>) -> Seq<Seq<char>>
    decreases keys.len(),
{
    if keys.len() == 0 {
        Seq::empty()
    } else {
        let d = distinct_keys(keys.drop_last());
        match keys.last() {
            Some(k) => if d.contains(k) {
                d
            } else {
                d.push(k)
            },
            None => d,
        }
    }
}

/// `top` holds the `limit` most frequent keys (all of them if there are
/// fewer), each once with its count, most frequent first; a key left out
/// occurs no more often than any key kept.
pub open spec fn is_top(top: Seq<(Seq<char>, u64)>, keys: Seq<Option<Seq<char>>>, limit: nat) -> bool {
    let d = distinct_keys(keys);
    &&& top.len() == if limit < d.len() {
        limit
    } else {
        d.len()
    }
    &&& forall|i: int|
        0 <= i < top.len() ==> d.contains(#[trigger] top[i].0) && top[i].1 == count_of(
            keys,
            top[i].0,
        )
    &&& forall|i: int, j: int| 0 <= i < j < top.len() ==> #[trigger] top[i].0 != #[trigger] top[j].0
    &&& forall|i: int, j: int| 0 <= i < j < top.len() ==> #[trigger] top[i].1 >= #[trigger] top[j].1
    &&& forall|k: Seq<char>, i: int|
        0 <= i < top.len() && #[trigger] d.contains(k) && count_of(keys, k) > #[trigger] top[i].1
            ==> exists|j: int| 0 <= j < top.len() && #[trigger] top[j].0 == k
}

proof fn lemma_distinct_keys(keys: Seq<Option<Seq<char>>>)
    ensures
        distinct_keys(keys).no_duplicates(),
        forall|k: Seq<char>| #[trigger] distinct_keys(keys).contains(k) <==> count_of(keys, k) > 0,
        forall|k: Seq<char>| #[trigger] count_of(keys, k) <= keys.len(),
    decreases keys.len(),
{
    if keys.len() > 0 {
        lemma_distinct_keys(keys.drop_last());
        assert forall|k: Seq<char>| #[trigger] count_of(keys, k) <= keys.len() by {
            assert(count_of(keys.drop_last(), k) <= keys.drop_last().len());
        }
        let d = distinct_keys(keys.drop_last());
        match keys.last() {
            Some(k) => {
                if !d.contains(k) {
                    assert forall|a: int, b: int|
                        0 <= a < b < d.push(k).len() implies d.push(k)[a] != d.push(k)[b] by {
                        if b == d.len() {
                            assert(d.push(k)[a] == d[a]);
                        }
                    }
                    assert forall|x: Seq<char>| #[trigger]
                        d.push(k).contains(x) <==> count_of(keys, x) > 0 by {
                        if d.push(k).contains(x) && x != k {
                            let j = choose|j: int| 0 <= j < d.push(k).len() && d.push(k)[j] == x;
                            assert(d[j] == x);
                        }
                        if x == k {
                            assert(d.push(k)[d.len() as int] == k);
                        } else if d.contains(x) {
                            let j = choose|j: int| 0 <= j < d.len() && d[j] == x;
                            assert(d.push(k)[j] == x);
                        }
                    }
                }
            },
            None => {},
        }
    }
}

/// Counts each key: the distinct keys in the order of first occurrence, with
/// their counts.
fn count_keys(keys: &Vec<Option<String>>) -> (r: Vec<(String, u64)>)
    ensures
        r@.map_values(|e: (String, u64)| e.0@) == distinct_keys(
            keys@.map_values(|k: Option<String>| crate::ufw::backend::opt_string(k)),
        ),
        forall|j: int|
            0 <= j < r@.len() ==> #[trigger] r@[j].1 == count_of(
                keys@.map_values(|k: Option<String>| crate::ufw::backend::opt_string(k)),
                r@[j].0@,
            ),
{
    let ghost ks = keys@.map_values(|k: Option<String>| crate::ufw::backend::opt_string(k));
    let mut r: Vec<(String, u64)> = Vec::new();
    let mut i: usize = 0;
    assert(ks.take(0) =~= Seq::<Option<Seq<char>>>::empty());
    while i < keys.len()
        invariant
            i <= keys.len(),
            ks == keys@.map_values(|k: Option<String>| crate::ufw::backend::opt_string(k)),
            r@.map_values(|e: (String, u64)| e.0@) == distinct_keys(ks.take(i as int)),
            forall|j: int|
                0 <= j < r@.len() ==> #[trigger] r@[j].1 == count_of(ks.take(i as int), r@[j].0@),
        decreases keys.len() - i,
    {
        let ghost pre = ks.take(i as int);
        let ghost post = ks.take(i + 1);
        assert(post.drop_last() =~= pre);
        assert(post.last() == ks[i as int]);
        proof {
            lemma_distinct_keys(pre);
        }
        let ghost rk = r@.map_values(|e: (String, u64)| e.0@);
        match &keys[i] {
            Some(k) => {
                assert(ks[i as int] == Some(k@));
                let mut j: usize = 0;
                while j < r.len() && !crate::text::eq_strings(&r[j].0, k)
                    invariant
                        j <= r.len(),
                        rk == r@.map_values(|e: (String, u64)| e.0@),
                        forall|m: int| 0 <= m < j ==> #[trigger] rk[m] != k@,
                    decreases r.len() - j,
                {
                    j += 1;
                }
                if j < r.len() {
                    assert(rk[j as int] == k@);
                    assert(rk.contains(k@));
                    assert(count_of(pre, k@) <= i);
                    let (name, n) = r.remove(j);
                    let ghost mid = r@;
                    r.insert(j, (name, n + 1));
                    assert(r@.map_values(|e: (String, u64)| e.0@) =~= rk);
                    assert forall|m: int| 0 <= m < r@.len() implies #[trigger] r@[m].1 == count_of(
                        post,
                        r@[m].0@,
                    ) by {
                        if m != j {
                            assert(rk[m] != rk[j as int]);
                        }
                    }
                } else {
                    assert(!rk.contains(k@));
                    let ghost before = r@;
                    r.push((k.clone(), 1));
                    assert(r@.map_values(|e: (String, u64)| e.0@) =~= rk.push(k@));
                    assert forall|m: int| 0 <= m < r@.len() implies #[trigger] r@[m].1 == count_of(
                        post,
                        r@[m].0@,
                    ) by {
                        if m < before.len() {
                            assert(r@[m] == before[m]);
                            assert(rk[m] == before[m].0@);
                        }
                    }
                }
            },
            None => {
                assert(ks[i as int] is None);
            },
        }
        i += 1;
    }
    assert(ks.take(keys.len() as int) =~= ks);
    r
}

pub open spec fn num_true(s: Seq<bool>) -> nat
    decreases s.len(),
{
    if s.len() == 0 {
        0
    } else {
        num_true(s.drop_last()) + if s.last() {
            1nat
        } else {
            0nat
        }
    }
}

proof fn lemma_num_true_update(s: Seq<bool>, j: int)
    requires
        0 <= j < s.len(),
        !s[j],
    ensures
        num_true(s.update(j, true)) == num_true(s) + 1,
    decreases s.len(),
{
    if j < s.len() - 1 {
        lemma_num_true_update(s.drop_last(), j);
        assert(s.update(j, true).drop_last() =~= s.drop_last().update(j, true));
    } else {
        assert(s.update(j, true).drop_last() =~= s.drop_last());
    }
}

proof fn lemma_num_true_free(s: Seq<bool>)
    requires
        num_true(s) < s.len(),
    ensures
        exists|j: int| 0 <= j < s.len() && !s[j],
    decreases s.len(),
{
    if s.last() {
        lemma_num_true_free(s.drop_last());
        let j = choose|j: int| 0 <= j < s.drop_last().len() && !s.drop_last()[j];
        assert(!s[j]);
    } else {
        assert(!s[s.len() - 1]);
    }
}

/// The keys and counts, as plain values.
pub open spec fn pairs_view(v: Seq<(String, u64)>) -> Seq<(Seq<char>, u64)> {
    v.map_values(|e: (String, u64)| (e.0@, e.1))
}

/// `(k, n)` is one of the entries of `c`.
pub open spec fn has_entry(c: Seq<(Seq<char>, u64)>, k: Seq<char>, n: u64) -> bool {
    exists|j: int| 0 <= j < c.len() && #[trigger] c[j] == (k, n)
}

/// `k` is the key of one of the entries of `c`.
pub open spec fn has_key(c: Seq<(Seq<char>, u64)>, k: Seq<char>) -> bool {
    exists|j: int| 0 <= j < c.len() && #[trigger] c[j].0 == k
}

/// The `limit` entries of `counts` (distinct keys) with the greatest counts,
/// greatest first.
fn select_top(counts: &Vec<(String, u64)>, limit: usize) -> (r: Vec<(String, u64)>)
    requires
        pairs_view(counts@).map_values(|e: (Seq<char>, u64)| e.0).no_duplicates(),
    ensures
        r@.len() == if limit < counts@.len() {
            limit as int
        } else {
            counts@.len() as int
        },
        forall|i: int|
            0 <= i < r@.len() ==> has_entry(pairs_view(counts@), #[trigger] pairs_view(r@)[i].0, pairs_view(r@)[i].1),
        forall|i: int, j: int|
            0 <= i < j < r@.len() ==> #[trigger] pairs_view(r@)[i].0 != #[trigger] pairs_view(r@)[j].0,
        forall|i: int, j: int|
            0 <= i < j < r@.len() ==> #[trigger] pairs_view(r@)[i].1 >= #[trigger] pairs_view(r@)[j].1,
        forall|j: int, i: int|
            0 <= j < counts@.len() && 0 <= i < r@.len() && #[trigger] pairs_view(counts@)[j].1
                > #[trigger] pairs_view(r@)[i].1 ==> has_key(pairs_view(r@), pairs_view(counts@)[j].0),
{
    let n = counts.len();
    let ghost cv = pairs_view(counts@);
    let ghost ck = cv.map_values(|e: (Seq<char>, u64)| e.0);
    let mut taken: Vec<bool> = Vec::new();
    let mut z: usize = 0;
    while z < n
        invariant
            z <= n,
            n == counts.len(),
            taken@.len() == z,
            forall|m: int| 0 <= m < z ==> !#[trigger] taken@[m],
            num_true(taken@) == 0,
        decreases n - z,
    {
        let ghost before = taken@;
        taken.push(false);
        assert(taken@.drop_last() =~= before);
        z += 1;
    }
    let mut r: Vec<(String, u64)> = Vec::new();
    let ghost mut chosen: Seq<int> = Seq::empty();
    while r.len() < limit && r.len() < n
        invariant
            n == counts.len(),
            cv == pairs_view(counts@),
            ck == cv.map_values(|e: (Seq<char>, u64)| e.0),
            ck.no_duplicates(),
            taken@.len() == n,
            r@.len() <= limit,
            r@.len() <= n,
            chosen.len() == r@.len(),
            num_true(taken@) == r@.len(),
            forall|t: int| 0 <= t < chosen.len() ==> 0 <= #[trigger] chosen[t] < n,
            forall|t: int| 0 <= t < chosen.len() ==> #[trigger] pairs_view(r@)[t] == cv[chosen[t]],
            forall|t: int| 0 <= t < chosen.len() ==> taken@[#[trigger] chosen[t]],
            forall|m: int|
                0 <= m < n && #[trigger] taken@[m] ==> exists|t: int|
                    0 <= t < chosen.len() && #[trigger] chosen[t] == m,
            forall|a: int, b: int|
                0 <= a < b < chosen.len() ==> #[trigger] chosen[a] != #[trigger] chosen[b],
            forall|a: int, b: int|
                0 <= a < b < r@.len() ==> #[trigger] pairs_view(r@)[a].1 >= #[trigger] pairs_view(r@)[b].1,
            forall|m: int, t: int|
                0 <= m < n && 0 <= t < r@.len() && !taken@[m] ==> #[trigger] cv[m].1
                    <= #[trigger] pairs_view(r@)[t].1,
        decreases n - r@.len(),
    {
        proof {
            lemma_num_true_free(taken@);
        }
        let mut best: usize = n;
        let mut m: usize = 0;
        while m < n
            invariant
                n == counts.len(),
                cv == pairs_view(counts@),
                taken@.len() == n,
                m <= n,
                best == n || (best < m && !taken@[best as int]),
                best == n ==> forall|q: int| 0 <= q < m ==> taken@[q],
                best < n ==> forall|q: int|
                    0 <= q < m && !taken@[q] ==> #[trigger] cv[q].1 <= cv[best as int].1,
            decreases n - m,
        {
            if !taken[m] && (best == n || counts[m].1 > counts[best].1) {
                best = m;
            }
            m += 1;
        }
        assert(best < n);
        let ghost old_r = pairs_view(r@);
        let ghost old_taken = taken@;
        let ghost old_chosen = chosen;
        r.push((counts[best].0.clone(), counts[best].1));
        assert(pairs_view(r@) =~= old_r.push(cv[best as int]));
        proof {
            lemma_num_true_update(taken@, best as int);
        }
        taken.set(best, true);
        proof {
            chosen = chosen.push(best as int);
            assert forall|t: int| 0 <= t < chosen.len() implies #[trigger] pairs_view(r@)[t]
                == cv[chosen[t]] by {
                if t < old_chosen.len() {
                    assert(chosen[t] == old_chosen[t]);
                }
            }
            assert forall|q: int| 0 <= q < n && #[trigger] taken@[q] implies exists|t: int|
                0 <= t < chosen.len() && #[trigger] chosen[t] == q by {
                if q == best {
                    assert(chosen[chosen.len() - 1] == q);
                } else {
                    assert(old_taken[q]);
                    let t = choose|t: int| 0 <= t < old_chosen.len() && #[trigger] old_chosen[t] == q;
                    assert(chosen[t] == q);
                }
            }
            assert forall|a: int, b: int| 0 <= a < b < chosen.len() implies #[trigger] chosen[a]
                != #[trigger] chosen[b] by {
                if b == chosen.len() - 1 {
                    assert(old_taken[chosen[a]]);
                } else {
                    assert(chosen[a] == old_chosen[a] && chosen[b] == old_chosen[b]);
                }
            }
            assert forall|a: int, b: int| 0 <= a < b < r@.len() implies #[trigger] pairs_view(r@)[a].1
                >= #[trigger] pairs_view(r@)[b].1 by {
                if b == r@.len() - 1 {
                    assert(cv[best as int].1 <= old_r[a].1);
                }
            }
            assert forall|q: int, t: int|
                0 <= q < n && 0 <= t < r@.len() && !taken@[q] implies #[trigger] cv[q].1
                <= #[trigger] pairs_view(r@)[t].1 by {
                assert(!old_taken[q]);
            }
        }
    }
    proof {
        let rv = pairs_view(r@);
        assert forall|i: int| 0 <= i < r@.len() implies has_entry(cv, #[trigger] rv[i].0, rv[i].1) by {
            assert(cv[chosen[i]] == (rv[i].0, rv[i].1));
        }
        assert forall|i: int, j: int| 0 <= i < j < r@.len() implies #[trigger] rv[i].0
            != #[trigger] rv[j].0 by {
            assert(ck[chosen[i]] == cv[chosen[i]].0);
            assert(ck[chosen[j]] == cv[chosen[j]].0);
        }
        assert forall|j: int, i: int|
            0 <= j < counts@.len() && 0 <= i < r@.len() && #[trigger] cv[j].1 > #[trigger] rv[i].1
            implies has_key(rv, cv[j].0) by {
            assert(taken@[j]);
            let t = choose|t: int| 0 <= t < chosen.len() && #[trigger] chosen[t] == j;
            assert(rv[t].0 == cv[j].0);
        }
    }
    r
}

/// The `limit` most frequent keys with their counts, most frequent first.
pub fn top_counts(keys: &Vec<Option<String>>, limit: usize) -> (r: Vec<(String, u64)>)
    ensures
        is_top(
            pairs_view(r@),
            keys@.map_values(|k: Option<String>| crate::ufw::backend::opt_string(k)),
            limit as nat,
        ),
{
    let ghost ks = keys@.map_values(|k: Option<String>| crate::ufw::backend::opt_string(k));
    let counts = count_keys(keys);
    proof {
        lemma_distinct_keys(ks);
    }
    let ghost d = distinct_keys(ks);
    let ghost cv = pairs_view(counts@);
    assert(cv.map_values(|e: (Seq<char>, u64)| e.0) =~= counts@.map_values(
        |e: (String, u64)| e.0@,
    ));
    let r = select_top(&counts, limit);
    let ghost top = pairs_view(r@);
    proof {
        assert forall|m: int| 0 <= m < cv.len() implies #[trigger] cv[m].0 == d[m] && cv[m].1
            == count_of(ks, d[m]) by {
            assert(counts@.map_values(|e: (String, u64)| e.0@)[m] == counts@[m].0@);
        }
        assert forall|i: int| 0 <= i < top.len() implies d.contains(#[trigger] top[i].0)
            && top[i].1 == count_of(ks, top[i].0) by {
            assert(has_entry(cv, top[i].0, top[i].1));
            let j = choose|j: int| 0 <= j < cv.len() && #[trigger] cv[j] == (top[i].0, top[i].1);
            assert(d[j] == top[i].0);
        }
        assert forall|k: Seq<char>, i: int|
            0 <= i < top.len() && #[trigger] d.contains(k) && count_of(ks, k) > #[trigger] top[i].1
            implies exists|j: int| 0 <= j < top.len() && #[trigger] top[j].0 == k by {
            let m = choose|m: int| 0 <= m < d.len() && d[m] == k;
            assert(cv[m].0 == k);
            assert(cv[m].1 > top[i].1);
            assert(has_key(top, cv[m].0));
        }
    }
    r
}

/// The key of an event for the blocked sources: its source, for a blocked
/// packet with one.
pub open spec fn source_key(e: BlockedEventView) -> Option<Seq<char>> {
    if e.action == "BLOCK"@ && e.src_ip.len() > 0 {
        Some(e.src_ip)
    } else {
        None
    }
}

/// The key of an event for the targeted ports: `<port>/<protocol>`, for a
/// blocked packet with a destination port.
pub open spec fn port_key(e: BlockedEventView) -> Option<Seq<char>> {
    if e.action == "BLOCK"@ && e.dst_port.len() > 0 {
        Some(e.dst_port + "/"@ + e.protocol)
    } else {
        None
    }
}

/// The most blocked sources, with how many packets of theirs were blocked,
/// most blocked first; at most `limit` of them.
pub fn top_blocked_ips(events: &Vec<BlockedEvent>, limit: usize) -> (r: Vec<(String, u64)>)
    ensures
        is_top(
            pairs_view(r@),
            events@.map_values(|e: BlockedEvent| source_key(e@)),
            limit as nat,
        ),
{
    let mut keys: Vec<Option<String>> = Vec::new();
    let mut i: usize = 0;
    while i < events.len()
        invariant
            i <= events.len(),
            keys@.map_values(|k: Option<String>| crate::ufw::backend::opt_string(k)) == events@.take(
                i as int,
            ).map_values(|e: BlockedEvent| source_key(e@)),
        decreases events.len() - i,
    {
        let e = &events[i];
        let ghost before = keys@.map_values(|k: Option<String>| crate::ufw::backend::opt_string(k));
        let key = if crate::text::string_is(&e.action, "BLOCK") && !e.src_ip.as_str().is_empty() {
            Some(e.src_ip.clone())
        } else {
            None
        };
        keys.push(key);
        assert(events@.take(i + 1).map_values(|e: BlockedEvent| source_key(e@)) =~= events@.take(
            i as int,
        ).map_values(|e: BlockedEvent| source_key(e@)).push(source_key(events@[i as int]@)));
        assert(keys@.map_values(|k: Option<String>| crate::ufw::backend::opt_string(k)) =~= before.push(
            crate::ufw::backend::opt_string(key),
        ));
        i += 1;
    }
    assert(events@.take(events.len() as int) =~= events@);
    top_counts(&keys, limit)
}

/// The most targeted destination ports, as `<port>/<protocol>`, with how
/// many packets to them were blocked, most targeted first; at most `limit`.
pub fn top_blocked_ports(events: &Vec<BlockedEvent>, limit: usize) -> (r: Vec<(String, u64)>)
    ensures
        is_top(pairs_view(r@), events@.map_values(|e: BlockedEvent| port_key(e@)), limit as nat),
{
    let mut keys: Vec<Option<String>> = Vec::new();
    let mut i: usize = 0;
    while i < events.len()
        invariant
            i <= events.len(),
            keys@.map_values(|k: Option<String>| crate::ufw::backend::opt_string(k)) == events@.take(
                i as int,
            ).map_values(|e: BlockedEvent| port_key(e@)),
        decreases events.len() - i,
    {
        let e = &events[i];
        let ghost before = keys@.map_values(|k: Option<String>| crate::ufw::backend::opt_string(k));
        let key = if crate::text::string_is(&e.action, "BLOCK") && !e.dst_port.as_str().is_empty() {
            let mut x = chars_of(e.dst_port.as_str());
            push_str(&mut x, "/");
            crate::text::push_string(&mut x, &e.protocol);
            Some(string_of(&x))
        } else {
            None
        };
        keys.push(key);
        assert(events@.take(i + 1).map_values(|e: BlockedEvent| port_key(e@)) =~= events@.take(
            i as int,
        ).map_values(|e: BlockedEvent| port_key(e@)).push(port_key(events@[i as int]@)));
        assert(keys@.map_values(|k: Option<String>| crate::ufw::backend::opt_string(k)) =~= before.push(
            crate::ufw::backend::opt_string(key),
        ));
        i += 1;
    }
    assert(events@.take(events.len() as int) =~= events@);
    top_counts(&keys, limit)
}

} // verus!
