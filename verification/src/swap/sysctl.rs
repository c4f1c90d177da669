//! Kernel tunables: the persistent configuration file that this tool owns,
//! live values under `/proc/sys`, and the total RAM from `/proc/meminfo`.
use vstd::prelude::*;
use crate::swap::exec::{
    helper, helper_request, must, write_file, FinishView, Plan, PlanView, Request, RequestView,
    result_view,
};
use crate::text::{
    chars_of, dec_string, find_char, find_char_range, int_error_message, int_error_text, lines,
    lines_range, owned, parse_unsigned_detailed, parse_unsigned_detailed_range, push_dec,
    push_str, push_string, ranges_view, ranges_within, starts_with, starts_with_range,
    string_of, string_of_range, strings_view, strip_cr, tokens, tokens_range, trim, trim_range,
    is_ws,
};

verus! {

/// The configuration file that holds the settings made here.
pub const SYSCTL_CONF: &'static str = "/etc/sysctl.d/90-anduinos-swapcontrol.conf";

/// Path of the kernel's memory statistics.
pub const PROC_MEMINFO: &'static str = "/proc/meminfo";

/// The first lines of the configuration file.
pub const SYSCTL_HEADER: &'static str = "# AnduinOS Swap Control — managed by anduinos-swapcontrol-gtk\n# Do not edit manually.\n\n";

/// The pairs of strings, as plain sequences.
pub open spec fn pairs_view(es: Seq<(String, String)>) -> Seq<(Seq<char>, Seq<char>)> {
    es.map_values(|p: (String, String)| (p.0@, p.1@))
}

/// No key occurs twice.
pub open spec fn keys_unique(es: Seq<(Seq<char>, Seq<char>)>) -> bool {
    forall|i: int, j: int| 0 <= i < es.len() && 0 <= j < es.len() && i != j ==> es[i].0 != es[j].0
}

/// The map that the pairs define (a later pair wins).
pub open spec fn pairs_map(es: Seq<(Seq<char>, Seq<char>)>) -> Map<Seq<char>, Seq<char>>
    decreases es.len(),
{
    if es.len() == 0 {
        Map::empty()
    } else {
        pairs_map(es.drop_last()).insert(es.last().0, es.last().1)
    }
}

pub proof fn lemma_pairs_map_update(es: Seq<(Seq<char>, Seq<char>)>, i: int, v: Seq<char>)
    requires
        keys_unique(es),
        0 <= i < es.len(),
    ensures
        pairs_map(es.update(i, (es[i].0, v))) == pairs_map(es).insert(es[i].0, v),
    decreases es.len(),
{
    let k = es[i].0;
    let es2 = es.update(i, (k, v));
    if i == es.len() - 1 {
        assert(es2.drop_last() =~= es.drop_last());
        assert(pairs_map(es2) =~= pairs_map(es).insert(k, v));
    } else {
        assert(es2.drop_last() =~= es.drop_last().update(i, (k, v)));
        lemma_pairs_map_update(es.drop_last(), i, v);
        assert(es.last().0 != k);
        assert(pairs_map(es2) =~= pairs_map(es).insert(k, v));
    }
}

/// Position of the first pair with key `k`, at or after `i`.
pub open spec fn key_index_from(es: Seq<(Seq<char>, Seq<char>)>, k: Seq<char>, i: int) -> Option<
    int,
>
    decreases es.len() - i,
{
    if i < 0 || i >= es.len() {
        None
    } else if es[i].0 == k {
        Some(i)
    } else {
        key_index_from(es, k, i + 1)
    }
}

/// The pairs with `k` set to `v`: in place where `k` is present, else at the end.
pub open spec fn pairs_insert(es: Seq<(Seq<char>, Seq<char>)>, k: Seq<char>, v: Seq<char>) -> Seq<
    (Seq<char>, Seq<char>),
> {
    match key_index_from(es, k, 0) {
        Some(i) => es.update(i, (k, v)),
        None => es.push((k, v)),
    }
}

/// Sysctl settings: keys with their values, each key once, in the order in
/// which the keys were first inserted.
#[derive(Debug)]
pub struct SysctlParams {
    entries: Vec<(String, String)>,
}

impl SysctlParams {
    /// The settings, in order.
    pub closed spec fn pairs(&self) -> Seq<(Seq<char>, Seq<char>)> {
        pairs_view(self.entries@)
    }

    /// The settings as a map.
    pub open spec fn map(&self) -> Map<Seq<char>, Seq<char>> {
        pairs_map(self.pairs())
    }

    #[verifier::type_invariant]
    closed spec fn inv(&self) -> bool {
        keys_unique(pairs_view(self.entries@))
    }

    /// No settings.
    pub fn new() -> (p: SysctlParams)
        ensures
            p.pairs() == Seq::<(Seq<char>, Seq<char>)>::empty(),
            p.map() == Map::<Seq<char>, Seq<char>>::empty(),
    {
        let entries: Vec<(String, String)> = Vec::new();
        assert(pairs_view(entries@) =~= Seq::<(Seq<char>, Seq<char>)>::empty());
        let p = SysctlParams { entries };
        assert(p.pairs() =~= Seq::<(Seq<char>, Seq<char>)>::empty());
        p
    }

    /// Sets `key` to `value`: in place where the key is present, else at the end.
    pub fn insert(&mut self, key: String, value: String)
        ensures
            final(self).pairs() == pairs_insert(old(self).pairs(), key@, value@),
            final(self).map() == old(self).map().insert(key@, value@),
            keys_unique(final(self).pairs()),
    {
        proof {
            use_type_invariant(&*self);
        }
        let ghost es = self.pairs();
        let ghost kv = key@;
        let ghost vv = value@;
        let mut entries: Vec<(String, String)> = Vec::new();
        std::mem::swap(&mut entries, &mut self.entries);
        let mut i: usize = 0;
        while i < entries.len()
            invariant
                i <= entries.len(),
                es == pairs_view(entries@),
                keys_unique(es),
                forall|j: int| 0 <= j < i ==> es[j].0 != key@,
                kv == key@,
                vv == value@,
                es == old(self).pairs(),
                key_index_from(es, kv, 0) == key_index_from(es, kv, i as int),
            decreases entries.len() - i,
        {
            if entries[i].0 == key {
                assert(es[i as int].0 == key@);
                proof {
                    lemma_pairs_map_update(es, i as int, value@);
                }
                entries.set(i, (key, value));
                assert(pairs_view(entries@) =~= es.update(i as int, (es[i as int].0, value@)));
                assert(keys_unique(pairs_view(entries@)));
                self.entries = entries;
                assert(self.pairs() == es.update(i as int, (kv, vv)));
                assert(self.map() == pairs_map(es).insert(kv, vv));
                return;
            }
            i += 1;
        }
        entries.push((key, value));
        assert(pairs_view(entries@) =~= es.push((kv, vv)));
        assert(es.push((kv, vv)).drop_last() =~= es);
        assert(keys_unique(pairs_view(entries@)));
        self.entries = entries;
    }

    /// Number of settings.
    pub fn len(&self) -> (n: usize)
        ensures
            n == self.pairs().len(),
    {
        self.entries.len()
    }

    /// The key and value of setting `i`.
    pub fn entry(&self, i: usize) -> (kv: (&String, &String))
        requires
            i < self.pairs().len(),
        ensures
            (kv.0@, kv.1@) == self.pairs()[i as int],
    {
        (&self.entries[i].0, &self.entries[i].1)
    }

    /// The value of `key`, if set.
    pub fn get(&self, key: &str) -> (r: Option<String>)
        ensures
            r matches Some(v) ==> self.map().contains_key(key@) && self.map()[key@] == v@,
            r is None ==> !self.map().contains_key(key@),
    {
        proof {
            use_type_invariant(self);
        }
        let k = owned(key);
        let ghost es = self.pairs();
        let mut i: usize = 0;
        while i < self.entries.len()
            invariant
                i <= self.entries.len(),
                es == pairs_view(self.entries@),
                keys_unique(es),
                forall|j: int| 0 <= j < i ==> es[j].0 != key@,
                k@ == key@,
            decreases self.entries.len() - i,
        {
            if self.entries[i].0 == k {
                proof {
                    lemma_pairs_map_lookup(es, i as int);
                }
                return Some(self.entries[i].1.clone());
            }
            i += 1;
        }
        proof {
            lemma_pairs_map_absent(es, key@);
        }
        None
    }
}

pub proof fn lemma_pairs_map_lookup(es: Seq<(Seq<char>, Seq<char>)>, i: int)
    requires
        keys_unique(es),
        0 <= i < es.len(),
    ensures
        pairs_map(es).contains_key(es[i].0),
        pairs_map(es)[es[i].0] == es[i].1,
    decreases es.len(),
{
    if i < es.len() - 1 {
        lemma_pairs_map_lookup(es.drop_last(), i);
    }
}

pub proof fn lemma_pairs_map_absent(es: Seq<(Seq<char>, Seq<char>)>, k: Seq<char>)
    requires
        forall|j: int| 0 <= j < es.len() ==> es[j].0 != k,
    ensures
        !pairs_map(es).contains_key(k),
    decreases es.len(),
{
    if es.len() > 0 {
        lemma_pairs_map_absent(es.drop_last(), k);
    }
}

/// One line of the configuration file: blank lines and `#` comments are
/// skipped; `key = value` (both trimmed, split at the first `=`) sets `key`.
pub open spec fn conf_line(m: Map<Seq<char>, Seq<char>>, line: Seq<char>) -> Map<
    Seq<char>,
    Seq<char>,
> {
    let l = trim(line);
    if l.len() == 0 || starts_with(l, "#"@) {
        m
    } else {
        match find_char(l, '=') {
            Some(i) => m.insert(trim(l.take(i)), trim(l.skip(i + 1))),
            None => m,
        }
    }
}

/// The settings that the lines of a configuration file define.
pub open spec fn conf_map(ls: Seq<Seq<char>>) -> Map<Seq<char>, Seq<char>>
    decreases ls.len(),
{
    if ls.len() == 0 {
        Map::empty()
    } else {
        conf_line(conf_map(ls.drop_last()), ls.last())
    }
}

/// Reads the settings of the configuration file from its contents; a file
/// that could not be read (`None`) holds none.
pub fn read_sysctl_conf(content: Option<String>) -> (p: SysctlParams)
    ensures
        content is None ==> p.map() == Map::<Seq<char>, Seq<char>>::empty(),
        content matches Some(c) ==> p.map() == conf_map(lines(c@)),
        keys_unique(p.pairs()),
{
    let mut p = SysctlParams::new();
    let c = match content {
        None => {
            proof {
                use_type_invariant(&p);
            }
            return p;
        },
        Some(c) => c,
    };
    let v = chars_of(c.as_str());
    let ls = lines_range(&v, 0, v.len());
    assert(v@.subrange(0, v@.len() as int) =~= v@);
    let ghost all = lines(v@);
    let hash = chars_of("#");
    let mut i: usize = 0;
    assert(all.take(0) =~= Seq::<Seq<char>>::empty());
    while i < ls.len()
        invariant
            i <= ls.len(),
            all == ranges_view(v@, ls@),
            all == lines(v@),
            ranges_within(ls@, 0, v@.len() as int),
            p.map() == conf_map(all.take(i as int)),
            hash@ == "#"@,
        decreases ls.len() - i,
    {
        let (lo, hi) = ls[i];
        let ghost line = all[i as int];
        assert(line == v@.subrange(lo as int, hi as int));
        assert(all.take(i + 1).drop_last() =~= all.take(i as int));
        let (a, b) = trim_range(&v, lo, hi);
        let ghost l = trim(line);
        if a < b && !starts_with_range(&v, a, b, &hash) {
            match find_char_range(&v, a, b, '=') {
                Some(k) => {
                    proof {
                        crate::text::lemma_find_char_from(v@.subrange(a as int, b as int), '=', 0);
                    }
                    let (k0, k1) = trim_range(&v, a, a + k);
                    let (v0, v1) = trim_range(&v, a + k + 1, b);
                    assert(l.take(k as int) =~= v@.subrange(a as int, a + k));
                    assert(l.skip(k + 1) =~= v@.subrange(a + k + 1, b as int));
                    p.insert(string_of_range(&v, k0, k1), string_of_range(&v, v0, v1));
                },
                None => {},
            }
        }
        i += 1;
    }
    assert(all.take(ls.len() as int) =~= all);
    proof {
        use_type_invariant(&p);
    }
    p
}

/// The configuration file text for the given settings: the header, then
/// `key = value` on a line of its own for each setting, in order.
pub open spec fn conf_text(es: Seq<(Seq<char>, Seq<char>)>) -> Seq<char> {
    SYSCTL_HEADER@ + conf_body(es)
}

pub open spec fn conf_entry(kv: (Seq<char>, Seq<char>)) -> Seq<char> {
    kv.0 + " = "@ + kv.1 + "\n"@
}

pub open spec fn conf_body(es: Seq<(Seq<char>, Seq<char>)>) -> Seq<char>
    decreases es.len(),
{
    if es.len() == 0 {
        Seq::empty()
    } else {
        conf_body(es.drop_last()) + conf_entry(es.last())
    }
}

/// Writes the settings to the configuration file, one `key = value` line
/// per setting, each key once; the plan reports the result of the write.
pub fn write_sysctl_conf(params: &SysctlParams) -> (p: Plan)
    ensures
        p@ == (PlanView {
            steps: seq![must(write_file(SYSCTL_CONF@, conf_text(params.pairs())))],
            finish: FinishView::LastOutput,
        }),
        keys_unique(params.pairs()),
{
    let r = write_conf_request(params);
    crate::swap::exec::single(r)
}

/// The write of the configuration file for the given settings.
pub fn write_conf_request(params: &SysctlParams) -> (r: Request)
    ensures
        r@ == write_file(SYSCTL_CONF@, conf_text(params.pairs())),
        keys_unique(params.pairs()),
{
    proof {
        use_type_invariant(params);
    }
    let mut out = chars_of(SYSCTL_HEADER);
    let ghost es = params.pairs();
    let n = params.len();
    let mut i: usize = 0;
    assert(es.take(0) =~= Seq::<(Seq<char>, Seq<char>)>::empty());
    while i < n
        invariant
            i <= n,
            n == es.len(),
            es == params.pairs(),
            out@ == SYSCTL_HEADER@ + conf_body(es.take(i as int)),
        decreases n - i,
    {
        let (k, val) = params.entry(i);
        push_string(&mut out, k);
        push_str(&mut out, " = ");
        push_string(&mut out, val);
        push_str(&mut out, "\n");
        assert(es.take(i + 1).drop_last() =~= es.take(i as int));
        assert(out@ =~= SYSCTL_HEADER@ + conf_body(es.take(i + 1)));
        i += 1;
    }
    assert(es.take(n as int) =~= es);
    Request::WriteFile { path: owned(SYSCTL_CONF), value: string_of(&out) }
}

/// `key` with each `.` replaced by `/`.
pub open spec fn dots_to_slashes(key: Seq<char>) -> Seq<char> {
    key.map_values(|c: char| if c == '.' { '/' } else { c })
}

/// The file under `/proc/sys` of a dotted sysctl key.
pub open spec fn proc_path(key: Seq<char>) -> Seq<char> {
    "/proc/sys/"@ + dots_to_slashes(key)
}

/// Path under `/proc/sys` of a dotted sysctl key: `vm.swappiness` is
/// `/proc/sys/vm/swappiness`.
pub fn sysctl_proc_path(key: &str) -> (p: String)
    ensures
        p@ == proc_path(key@),
{
    let k = chars_of(key);
    let mut out = chars_of("/proc/sys/");
    let ghost pre = out@;
    let mut i: usize = 0;
    while i < k.len()
        invariant
            i <= k.len(),
            out@ == pre + dots_to_slashes(k@.take(i as int)),
            pre == "/proc/sys/"@,
        decreases k.len() - i,
    {
        let c = k[i];
        out.push(if c == '.' { '/' } else { c });
        assert(dots_to_slashes(k@.take(i + 1)) =~= dots_to_slashes(k@.take(i as int)).push(
            if c == '.' { '/' } else { c },
        ));
        i += 1;
    }
    assert(k@.take(k.len() as int) =~= k@);
    string_of(&out)
}

/// The live value of `key`: the contents of its `/proc/sys` file, trimmed,
/// or why it could not be read.
pub fn read_sysctl_live(key: &str, content: Result<String, String>) -> (r: Result<String, String>)
    ensures
        content matches Ok(c) ==> r matches Ok(s) && s@ == trim(c@),
        content matches Err(e) ==> r matches Err(m) && m@ == "Cannot read "@ + proc_path(key@)
            + ": "@ + e@,
{
    match content {
        Ok(c) => Ok(crate::text::trim_string(c.as_str())),
        Err(e) => {
            let path = sysctl_proc_path(key);
            let mut m = chars_of("Cannot read ");
            push_string(&mut m, &path);
            push_str(&mut m, ": ");
            push_string(&mut m, &e);
            Err(string_of(&m))
        },
    }
}

/// The swappiness that the contents of `/proc/sys/vm/swappiness` give.
pub open spec fn swappiness_of(c: Seq<char>) -> Result<u8, Seq<char>> {
    match parse_unsigned_detailed(trim(c), u8::MAX as nat) {
        Ok(n) => Ok(n as u8),
        Err(e) => Err("Cannot parse swappiness: "@ + int_error_text(e)),
    }
}

/// The current swappiness, from the contents of `/proc/sys/vm/swappiness`.
pub fn read_swappiness(content: Result<String, String>) -> (r: Result<u8, String>)
    ensures
        content matches Err(e) ==> r matches Err(m) && m@ == "Cannot read "@ + proc_path(
            "vm.swappiness"@,
        ) + ": "@ + e@,
        content matches Ok(c) ==> (r matches Ok(n) && swappiness_of(c@) == Ok::<u8, Seq<char>>(n))
            || (r matches Err(m) && swappiness_of(c@) == Err::<u8, Seq<char>>(m@)),
{
    let val = read_sysctl_live("vm.swappiness", content)?;
    let v = chars_of(val.as_str());
    assert(v@.subrange(0, v@.len() as int) =~= v@);
    match parse_unsigned_detailed_range(&v, 0, v.len(), 255) {
        Ok(n) => Ok(n as u8),
        Err(e) => {
            let mut m = chars_of("Cannot parse swappiness: ");
            let t = int_error_message(e);
            push_string(&mut m, &t);
            Err(string_of(&m))
        },
    }
}

/// What one line of `/proc/meminfo` says of the total RAM: nothing unless it
/// starts with `MemTotal:` and has at least two fields; then its second
/// field, in KiB, converted to bytes, or why it is not a number.
pub open spec fn mem_total_line(l: Seq<char>) -> Option<Result<u64, Seq<char>>> {
    if starts_with(l, "MemTotal:"@) && tokens(l).len() >= 2 {
        match parse_unsigned_detailed(tokens(l)[1], u64::MAX as nat) {
            Ok(kb) => Some(Ok((kb * 1024) as u64)),
            Err(e) => Some(Err("Cannot parse MemTotal: "@ + int_error_text(e))),
        }
    } else {
        None
    }
}

/// The `MemTotal` value of a line, in KiB, fits in bytes in a `u64`.
pub open spec fn mem_total_line_fits(l: Seq<char>) -> bool {
    starts_with(l, "MemTotal:"@) && tokens(l).len() >= 2 ==> (parse_unsigned_detailed(
        tokens(l)[1],
        u64::MAX as nat,
    ) matches Ok(kb) ==> kb <= u64::MAX / 1024)
}

/// The total RAM that the lines of `/proc/meminfo` give: the first line that
/// says something of it.
pub open spec fn mem_total_of(ls: Seq<Seq<char>>) -> Result<u64, Seq<char>>
    decreases ls.len(),
{
    if ls.len() == 0 {
        Err("MemTotal not found"@)
    } else {
        match mem_total_line(ls[0]) {
            Some(r) => r,
            None => mem_total_of(ls.drop_first()),
        }
    }
}

/// The `MemTotal` value of the lines fits in bytes in a `u64`.
pub open spec fn mem_total_fits(ls: Seq<Seq<char>>) -> bool
    decreases ls.len(),
{
    if ls.len() == 0 {
        true
    } else if mem_total_line(ls[0]) is Some {
        mem_total_line_fits(ls[0])
    } else {
        mem_total_fits(ls.drop_first())
    }
}

/// What the line `v[lo..hi]` says of the total RAM.
fn mem_total_line_exec(v: &Vec<char>, lo: usize, hi: usize, key: &Vec<char>) -> (r: Option<
    Result<u64, String>,
>)
    requires
        lo <= hi <= v.len(),
        key@ == "MemTotal:"@,
        mem_total_line_fits(v@.subrange(lo as int, hi as int)),
    ensures
        r is None <==> mem_total_line(v@.subrange(lo as int, hi as int)) is None,
        r matches Some(Ok(n)) ==> mem_total_line(v@.subrange(lo as int, hi as int)) == Some(
            Ok::<u64, Seq<char>>(n),
        ),
        r matches Some(Err(m)) ==> mem_total_line(v@.subrange(lo as int, hi as int)) == Some(
            Err::<u64, Seq<char>>(m@),
        ),
{
    let ghost line = v@.subrange(lo as int, hi as int);
    if !starts_with_range(v, lo, hi, key) {
        return None;
    }
    let t = tokens_range(v, lo, hi);
    if t.len() < 2 {
        return None;
    }
    let (t0, t1) = t[1];
    assert(ranges_view(v@, t@)[1] == v@.subrange(t0 as int, t1 as int));
    assert(tokens(line)[1] == v@.subrange(t0 as int, t1 as int));
    match parse_unsigned_detailed_range(v, t0, t1, u64::MAX) {
        Ok(kb) => Some(Ok(kb * 1024)),
        Err(e) => {
            let mut m = chars_of("Cannot parse MemTotal: ");
            let t = int_error_message(e);
            push_string(&mut m, &t);
            Some(Err(string_of(&m)))
        },
    }
}

/// Total RAM in bytes, from the contents of `/proc/meminfo`.
pub fn read_total_ram(content: Result<String, String>) -> (r: Result<u64, String>)
    requires
        content matches Ok(c) ==> mem_total_fits(lines(c@)),
    ensures
        content matches Err(e) ==> r matches Err(m) && m@ == "Cannot read /proc/meminfo: "@ + e@,
        content matches Ok(c) ==> (r matches Ok(n) && mem_total_of(lines(c@)) == Ok::<u64, Seq<char>>(n))
            || (r matches Err(m) && mem_total_of(lines(c@)) == Err::<u64, Seq<char>>(m@)),
{
    let c = match content {
        Err(e) => {
            let mut m = chars_of("Cannot read /proc/meminfo: ");
            push_string(&mut m, &e);
            return Err(string_of(&m));
        },
        Ok(c) => c,
    };
    let v = chars_of(c.as_str());
    let ls = lines_range(&v, 0, v.len());
    assert(v@.subrange(0, v@.len() as int) =~= v@);
    let ghost all = lines(v@);
    assert(all == ranges_view(v@, ls@));
    let key = chars_of("MemTotal:");
    let mut i: usize = 0;
    assert(all.skip(0) =~= all);
    while i < ls.len()
        invariant
            i <= ls.len(),
            all == ranges_view(v@, ls@),
            ranges_within(ls@, 0, v@.len() as int),
            mem_total_of(all) == mem_total_of(all.skip(i as int)),
            mem_total_fits(all.skip(i as int)),
            key@ == "MemTotal:"@,
            content matches Ok(cc) && cc@ == v@,
            all == lines(v@),
        decreases ls.len() - i,
    {
        let (lo, hi) = ls[i];
        let ghost rest = all.skip(i as int);
        assert(rest[0] == v@.subrange(lo as int, hi as int));
        assert(rest.drop_first() =~= all.skip(i + 1));
        assert(mem_total_line_fits(rest[0]) && (mem_total_line(rest[0]) is None ==> mem_total_fits(
            all.skip(i + 1),
        ) && mem_total_of(rest) == mem_total_of(all.skip(i + 1))));
        match mem_total_line_exec(&v, lo, hi, &key) {
            Some(r) => {
                return r;
            },
            None => {},
        }
        i += 1;
    }
    assert(all.skip(i as int) =~= Seq::<Seq<char>>::empty());
    Err(owned("MemTotal not found"))
}

/// `helper sysctl -w <key>=<value>`.
pub open spec fn apply_live_request(key: Seq<char>, value: Seq<char>) -> RequestView {
    helper("sysctl"@, seq!["-w"@, key + "="@ + value])
}

/// Applies one sysctl value immediately.
pub fn apply_live(key: &str, value: &str) -> (r: Request)
    ensures
        r@ == apply_live_request(key@, value@),
{
    let mut kv = chars_of(key);
    push_str(&mut kv, "=");
    push_str(&mut kv, value);
    let mut args = Vec::new();
    args.push(owned("-w"));
    args.push(string_of(&kv));
    assert(strings_view(args@) =~= seq!["-w"@, key@ + "="@ + value@]);
    helper_request("sysctl", args)
}

/// The two writes that set the swappiness: the live value, and the
/// configuration file with `vm.swappiness` set.
pub struct SwappinessUpdate {
    pub live: Request,
    pub persist: Request,
}

/// Sets `vm.swappiness` both immediately and in the configuration file whose
/// current settings are `current`.
pub fn set_swappiness(value: u8, current: SysctlParams) -> (u: SwappinessUpdate)
    ensures
        u.live@ == apply_live_request("vm.swappiness"@, dec_string(value as nat)),
        u.persist@ == write_file(
            SYSCTL_CONF@,
            conf_text(pairs_insert(current.pairs(), "vm.swappiness"@, dec_string(value as nat))),
        ),
        keys_unique(current.pairs()),
        keys_unique(pairs_insert(current.pairs(), "vm.swappiness"@, dec_string(value as nat))),
        pairs_map(pairs_insert(current.pairs(), "vm.swappiness"@, dec_string(value as nat)))
            == current.map().insert("vm.swappiness"@, dec_string(value as nat)),
{
    proof {
        use_type_invariant(&current);
    }
    let mut d: Vec<char> = Vec::new();
    push_dec(&mut d, value as u64);
    let val = string_of(&d);
    let live = apply_live("vm.swappiness", val.as_str());
    let mut params = current;
    params.insert(owned("vm.swappiness"), val);
    let persist = write_conf_request(&params);
    SwappinessUpdate { live, persist }
}

/// The result of setting the swappiness, from the results of its two writes:
/// a failure only when both failed.
pub open spec fn swappiness_result(
    live: Result<Seq<char>, Seq<char>>,
    persisted: Result<Seq<char>, Seq<char>>,
) -> Result<Seq<char>, Seq<char>> {
    match (live, persisted) {
        (Err(a), Err(b)) => Err("Failed to set swappiness: "@ + a + " / "@ + b),
        _ => Ok("swappiness updated"@),
    }
}

/// Combines the results of the two writes of `set_swappiness`.
pub fn swappiness_outcome(live: Result<String, String>, persisted: Result<String, String>) -> (r:
    Result<String, String>)
    ensures
        result_view(r) == swappiness_result(result_view(live), result_view(persisted)),
{
    match (live, persisted) {
        (Err(a), Err(b)) => {
            let mut m = chars_of("Failed to set swappiness: ");
            push_string(&mut m, &a);
            push_str(&mut m, " / ");
            push_string(&mut m, &b);
            Err(string_of(&m))
        },
        _ => Ok(owned("swappiness updated")),
    }
}

} // verus!

verus! {

// ─── Reading back what was written ──────────────────────────────────────────

/// A string without whitespace at either end.
pub open spec fn trimmed(s: Seq<char>) -> bool {
    s.len() == 0 || (!is_ws(s[0]) && !is_ws(s.last()))
}

/// A setting that the configuration file holds and gives back: its key is
/// not empty, does not start a comment and has no `=`; neither key nor value
/// has a line break, nor whitespace at either end.
pub open spec fn storable(kv: (Seq<char>, Seq<char>)) -> bool {
    &&& kv.0.len() > 0
    &&& kv.0[0] != '#'
    &&& trimmed(kv.0)
    &&& trimmed(kv.1)
    &&& forall|k: int| 0 <= k < kv.0.len() ==> kv.0[k] != '=' && kv.0[k] != '\n'
    &&& forall|k: int| 0 <= k < kv.1.len() ==> kv.1[k] != '\n'
}

/// The line of the file that holds a setting.
pub open spec fn entry_line(kv: (Seq<char>, Seq<char>)) -> Seq<char> {
    kv.0 + " = "@ + kv.1
}

/// The settings after the lines `ls`, starting from `m`.
pub open spec fn conf_apply(m: Map<Seq<char>, Seq<char>>, ls: Seq<Seq<char>>) -> Map<
    Seq<char>,
    Seq<char>,
>
    decreases ls.len(),
{
    if ls.len() == 0 {
        m
    } else {
        conf_line(conf_apply(m, ls.drop_last()), ls.last())
    }
}

proof fn lemma_conf_map_apply(ls: Seq<Seq<char>>)
    ensures
        conf_map(ls) == conf_apply(Map::empty(), ls),
    decreases ls.len(),
{
    if ls.len() > 0 {
        lemma_conf_map_apply(ls.drop_last());
    }
}

proof fn lemma_conf_apply_append(m: Map<Seq<char>, Seq<char>>, a: Seq<Seq<char>>, b: Seq<Seq<char>>)
    ensures
        conf_apply(m, a + b) == conf_apply(conf_apply(m, a), b),
    decreases b.len(),
{
    if b.len() == 0 {
        assert(a + b =~= a);
    } else {
        assert((a + b).drop_last() =~= a + b.drop_last());
        assert((a + b).last() == b.last());
        lemma_conf_apply_append(m, a, b.drop_last());
    }
}

proof fn lemma_trim_start_same(s: Seq<char>)
    requires
        s.len() > 0,
        !is_ws(s[0]),
    ensures
        crate::text::trim_start(s) == s,
{
}

proof fn lemma_trim_end_same(s: Seq<char>)
    requires
        s.len() > 0,
        !is_ws(s.last()),
    ensures
        crate::text::trim_end(s) == s,
{
}

/// The line of a storable setting sets it.
proof fn lemma_entry_line(m: Map<Seq<char>, Seq<char>>, kv: (Seq<char>, Seq<char>))
    requires
        storable(kv),
    ensures
        conf_line(m, entry_line(kv)) == m.insert(kv.0, kv.1),
        strip_cr(entry_line(kv)) == entry_line(kv),
{
    reveal_strlit(" = ");
    reveal_strlit("#");
    let k = kv.0;
    let v = kv.1;
    let e = entry_line(kv);
    assert(" = "@ =~= seq![' ', '=', ' ']);
    assert("#"@ =~= seq!['#']);
    assert(e =~= k + seq![' ', '=', ' '] + v);
    assert(is_ws(' ') && !is_ws('=') && !is_ws('\r') ==> true);
    assert(e[0] == k[0]);
    lemma_trim_start_same(e);
    let l = if v.len() > 0 {
        e
    } else {
        k + seq![' ', '=']
    };
    if v.len() > 0 {
        assert(e.last() == v.last());
        lemma_trim_end_same(e);
    } else {
        assert(e =~= k + seq![' ', '=', ' ']);
        assert(e.drop_last() =~= k + seq![' ', '=']);
        assert(is_ws(e.last()));
        assert((k + seq![' ', '=']).last() == '=');
        lemma_trim_end_same(k + seq![' ', '=']);
    }
    assert(trim(e) == l);
    assert(l[0] == k[0]);
    crate::text::lemma_starts_with_char(l, '#');
    assert(l[k.len() as int] == ' ');
    assert(l[k.len() as int + 1] == '=');
    assert forall|j: int| 0 <= j < k.len() + 1 implies l[j] != '=' by {
        if j < k.len() {
            assert(l[j] == k[j]);
        }
    }
    crate::text::lemma_find_char_first(l, '=', 0, k.len() as int + 1);
    let kk = l.take(k.len() as int + 1);
    assert(kk =~= k + seq![' ']);
    assert(kk[0] == k[0]);
    lemma_trim_start_same(kk);
    assert(kk.drop_last() =~= k);
    lemma_trim_end_same(k);
    assert(trim(kk) == k);
    let vv = l.skip(k.len() as int + 2);
    if v.len() > 0 {
        assert(vv =~= seq![' '] + v);
        assert(vv.drop_first() =~= v);
        lemma_trim_start_same(v);
        lemma_trim_end_same(v);
        assert(trim(vv) == v);
    } else {
        assert(vv =~= Seq::<char>::empty());
        assert(trim(vv) =~= v);
    }
    if v.len() > 0 {
        assert(e.last() == v.last());
    } else {
        assert(e.last() == ' ');
    }
}

/// The body of the file ends a line, and its lines are those of the
/// settings, in order.
proof fn lemma_body_lines(es: Seq<(Seq<char>, Seq<char>)>)
    requires
        forall|i: int| 0 <= i < es.len() ==> storable(#[trigger] es[i]),
    ensures
        lines(conf_body(es)) == es.map_values(|kv: (Seq<char>, Seq<char>)| entry_line(kv)),
        es.len() > 0 ==> conf_body(es).len() > 0 && conf_body(es).last() == '\n',
    decreases es.len(),
{
    reveal_strlit("\n");
    reveal_strlit(" = ");
    if es.len() == 0 {
        assert(lines(Seq::<char>::empty()) =~= Seq::<Seq<char>>::empty());
        assert(es.map_values(|kv: (Seq<char>, Seq<char>)| entry_line(kv)) =~= Seq::<Seq<char>>::empty());
    } else {
        let prev = es.drop_last();
        let kv = es.last();
        assert(storable(es[es.len() - 1]));
        lemma_body_lines(prev);
        lemma_entry_line(Map::empty(), kv);
        let x = entry_line(kv);
        assert(conf_entry(kv) =~= x + seq!['\n']);
        assert forall|j: int| 0 <= j < x.len() implies x[j] != '\n' by {
            assert(" = "@ =~= seq![' ', '=', ' ']);
            if j < kv.0.len() {
                assert(x[j] == kv.0[j]);
            } else if j < kv.0.len() + 3 {
            } else {
                assert(x[j] == kv.1[j - kv.0.len() - 3]);
            }
        }
        crate::text::lemma_lines_single(x);
        if prev.len() == 0 {
            assert(conf_body(prev) =~= Seq::<char>::empty());
            assert(conf_body(es) =~= conf_entry(kv));
        } else {
            crate::text::lemma_lines_append(conf_body(prev), conf_entry(kv));
        }
        assert(es.map_values(|kv: (Seq<char>, Seq<char>)| entry_line(kv)) =~= prev.map_values(
            |kv: (Seq<char>, Seq<char>)| entry_line(kv),
        ).push(x));
        assert(conf_body(es).last() == conf_entry(kv).last());
    }
}

/// Applying the lines of storable settings sets them in order.
proof fn lemma_entries_apply(es: Seq<(Seq<char>, Seq<char>)>)
    requires
        forall|i: int| 0 <= i < es.len() ==> storable(#[trigger] es[i]),
    ensures
        conf_apply(Map::empty(), es.map_values(|kv: (Seq<char>, Seq<char>)| entry_line(kv)))
            == pairs_map(es),
    decreases es.len(),
{
    if es.len() > 0 {
        let prev = es.drop_last();
        let ls = es.map_values(|kv: (Seq<char>, Seq<char>)| entry_line(kv));
        assert(ls.drop_last() =~= prev.map_values(|kv: (Seq<char>, Seq<char>)| entry_line(kv)));
        assert(storable(es[es.len() - 1]));
        lemma_entries_apply(prev);
        lemma_entry_line(conf_apply(Map::empty(), ls.drop_last()), es.last());
    }
}

/// The header of the file sets nothing.
proof fn lemma_header(m: Map<Seq<char>, Seq<char>>, rest: Seq<char>)
    ensures
        conf_apply(m, lines(SYSCTL_HEADER@ + rest)) == conf_apply(m, lines(rest)),
{
    reveal_strlit("# AnduinOS Swap Control — managed by anduinos-swapcontrol-gtk\n# Do not edit manually.\n\n");
    reveal_strlit("# AnduinOS Swap Control — managed by anduinos-swapcontrol-gtk");
    reveal_strlit("# Do not edit manually.");
    reveal_strlit("#");
    let h1 = "# AnduinOS Swap Control — managed by anduinos-swapcontrol-gtk"@;
    let h2 = "# Do not edit manually."@;
    let nl = seq!['\n'];
    assert(SYSCTL_HEADER@ =~= (h1 + nl) + (h2 + nl) + nl);
    assert forall|k: int| 0 <= k < h1.len() implies h1[k] != '\n' by {}
    assert forall|k: int| 0 <= k < h2.len() implies h2[k] != '\n' by {}
    crate::text::lemma_lines_single(h1);
    crate::text::lemma_lines_single(h2);
    assert(seq![]+ nl =~= nl);
    crate::text::lemma_lines_single(Seq::<char>::empty());
    assert(Seq::<char>::empty() + nl =~= nl);
    let all = SYSCTL_HEADER@ + rest;
    assert(all =~= (h1 + nl) + ((h2 + nl) + (nl + rest)));
    crate::text::lemma_lines_append(h1 + nl, (h2 + nl) + (nl + rest));
    crate::text::lemma_lines_append(h2 + nl, nl + rest);
    crate::text::lemma_lines_append(nl, rest);
    let hl = seq![strip_cr(h1), strip_cr(h2), strip_cr(Seq::<char>::empty())];
    assert(lines(all) =~= hl + lines(rest));
    lemma_conf_apply_append(m, hl, lines(rest));
    assert("#"@ =~= seq!['#']);
    assert(h1.last() != '\r' && h2.last() != '\r');
    assert(strip_cr(h1) == h1 && strip_cr(h2) == h2);
    crate::text::lemma_starts_with_char(trim(h1), '#');
    crate::text::lemma_starts_with_char(trim(h2), '#');
    lemma_trim_start_same(h1);
    lemma_trim_end_same(h1);
    lemma_trim_start_same(h2);
    lemma_trim_end_same(h2);
    let e = Seq::<char>::empty();
    assert(strip_cr(e) == e);
    assert(trim(e) =~= e);
    let s1 = seq![h1];
    let s2 = seq![h1, h2];
    assert(hl =~= seq![h1, h2, e]);
    assert(hl.drop_last() =~= s2);
    assert(s2.drop_last() =~= s1);
    assert(s1.drop_last() =~= Seq::<Seq<char>>::empty());
    assert(conf_apply(m, Seq::<Seq<char>>::empty()) == m);
    assert(conf_line(m, h1) == m);
    assert(conf_apply(m, s1) == m);
    assert(conf_line(m, h2) == m);
    assert(conf_apply(m, s2) == m);
    assert(conf_line(m, e) == m);
    assert(conf_apply(m, hl) == m);
}

/// Reading back the configuration file that was written for some settings
/// gives those settings, when each is storable. (The file holds the text
/// followed by a newline, as the write adds one.)
pub proof fn lemma_conf_round_trip(es: Seq<(Seq<char>, Seq<char>)>)
    requires
        forall|i: int| 0 <= i < es.len() ==> storable(#[trigger] es[i]),
    ensures
        conf_map(lines(conf_text(es) + seq!['\n'])) == pairs_map(es),
{
    let body = conf_body(es);
    let nl = seq!['\n'];
    assert(conf_text(es) + nl =~= SYSCTL_HEADER@ + (body + nl));
    lemma_conf_map_apply(lines(conf_text(es) + nl));
    lemma_header(Map::empty(), body + nl);
    lemma_body_lines(es);
    crate::text::lemma_lines_single(Seq::<char>::empty());
    assert(Seq::<char>::empty() + nl =~= nl);
    let blank = seq![strip_cr(Seq::<char>::empty())];
    if es.len() > 0 {
        crate::text::lemma_lines_append(body, nl);
    } else {
        assert(body =~= Seq::<char>::empty());
        assert(body + nl =~= nl);
        assert(lines(body) =~= Seq::<Seq<char>>::empty());
    }
    assert(lines(body + nl) =~= lines(body) + blank);
    lemma_conf_apply_append(Map::empty(), lines(body), blank);
    lemma_entries_apply(es);
    let e = Seq::<char>::empty();
    assert(strip_cr(e) == e);
    assert(trim(e) =~= e);
    assert(blank.drop_last() =~= Seq::<Seq<char>>::empty());
    assert(blank.last() == e);
    assert(conf_apply(pairs_map(es), Seq::<Seq<char>>::empty()) == pairs_map(es));
    assert(conf_line(pairs_map(es), e) == pairs_map(es));
    assert(conf_apply(pairs_map(es), blank) == pairs_map(es));
}

} // verus!

verus! {

/// Reading the swappiness back from `/proc/sys/vm/swappiness` after it was
/// set to `n` (the kernel shows the number and a newline) gives `n`.
pub proof fn lemma_swappiness_read_back(n: u8)
    ensures
        swappiness_of(dec_string(n as nat) + seq!['\n']) == Ok::<u8, Seq<char>>(n),
{
    crate::text::lemma_trim_dec_line(n as nat);
    crate::text::lemma_parse_dec_string(n as nat, u8::MAX as nat);
}

/// `key_index_from` finds the first pair from `i` on with the key, or tells
/// that none has it.
proof fn lemma_key_index_from(es: Seq<(Seq<char>, Seq<char>)>, k: Seq<char>, i: int)
    requires
        0 <= i <= es.len(),
    ensures
        match key_index_from(es, k, i) {
            Some(j) => i <= j < es.len() && es[j].0 == k,
            None => forall|j: int| i <= j < es.len() ==> es[j].0 != k,
        },
    decreases es.len() - i,
{
    if i < es.len() && es[i].0 != k {
        lemma_key_index_from(es, k, i + 1);
    }
}

/// Setting a key sets it in the map that the settings define, whether the
/// key was present or not.
pub proof fn lemma_pairs_insert_map(es: Seq<(Seq<char>, Seq<char>)>, k: Seq<char>, v: Seq<char>)
    requires
        keys_unique(es),
    ensures
        pairs_map(pairs_insert(es, k, v)) == pairs_map(es).insert(k, v),
{
    lemma_key_index_from(es, k, 0);
    match key_index_from(es, k, 0) {
        Some(i) => {
            lemma_pairs_map_update(es, i, v);
        },
        None => {
            assert(es.push((k, v)).drop_last() =~= es);
        },
    }
}

/// Setting a storable key to a storable value keeps every setting storable.
proof fn lemma_pairs_insert_storable(es: Seq<(Seq<char>, Seq<char>)>, k: Seq<char>, v: Seq<char>)
    requires
        forall|i: int| 0 <= i < es.len() ==> storable(#[trigger] es[i]),
        storable((k, v)),
    ensures
        forall|i: int|
            0 <= i < pairs_insert(es, k, v).len() ==> storable(#[trigger] pairs_insert(es, k, v)[i]),
{
    lemma_key_index_from(es, k, 0);
}

/// The swappiness setting, its value written as a number, is storable.
proof fn lemma_swappiness_storable(n: u8)
    ensures
        storable(("vm.swappiness"@, dec_string(n as nat))),
{
    reveal_strlit("vm.swappiness");
    crate::text::lemma_dec_string(n as nat);
    let d = dec_string(n as nat);
    assert(crate::text::is_digit(d[0]));
    assert(crate::text::is_digit(d[d.len() - 1]));
    assert forall|k: int| 0 <= k < d.len() implies d[k] != '\n' by {
        assert(crate::text::is_digit(d[k]));
    }
}

/// Setting the swappiness persists it: reading back the configuration file
/// that is written gives the settings it held before, with `vm.swappiness`
/// set to the new value (where those settings are storable; the file ends
/// with the newline that the write adds).
pub proof fn lemma_set_swappiness_persists(es: Seq<(Seq<char>, Seq<char>)>, n: u8)
    requires
        keys_unique(es),
        forall|i: int| 0 <= i < es.len() ==> storable(#[trigger] es[i]),
    ensures
        conf_map(
            lines(conf_text(pairs_insert(es, "vm.swappiness"@, dec_string(n as nat))) + seq!['\n']),
        ) == pairs_map(es).insert("vm.swappiness"@, dec_string(n as nat)),
{
    let k = "vm.swappiness"@;
    let v = dec_string(n as nat);
    lemma_swappiness_storable(n);
    lemma_pairs_insert_storable(es, k, v);
    lemma_conf_round_trip(pairs_insert(es, k, v));
    lemma_pairs_insert_map(es, k, v);
}

} // verus!
