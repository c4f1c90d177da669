//! zram: compressed block devices in RAM used as fast swap. Their state is
//! read from `/sys/block/zram*` and `/proc/swaps`; they are created and
//! destroyed with `zramctl` through the helper.
use vstd::prelude::*;
use crate::swap::exec::{
    add_step, helper, helper_request, may, must, one, Finish, FinishView, OnError, Plan,
    PlanView, RequestView,
};
use crate::swap::swapfile::{
    after_first, i32_or_zero, i32_or_zero_range, kib_bytes, kib_bytes_range, kib_fits,
};
use crate::swap::types::ZramDevice;
use crate::text::{
    chars_of, contains, find_exec, int_string, lines, lines_range, owned, parse_u64,
    parse_u64_range, push_dec, push_int, push_range, push_str, push_string, ranges_view,
    ranges_within, starts_with, starts_with_range, string_of, string_of_range, strings_view,
    tokens, tokens_range, trim, trim_range, trim_set, trim_set_range, dec_string, find,
    occurs_at,
};

verus! {

/// Directory of the block devices.
pub const ZRAM_SYSFS_DIR: &'static str = "/sys/block";

/// A zram device, as plain values.
pub struct ZramDeviceView {
    pub name: Seq<char>,
    pub size_bytes: u64,
    pub used_bytes: u64,
    pub compr_data_size: u64,
    pub orig_data_size: u64,
    pub mem_used_total: u64,
    pub comp_algorithm: Seq<char>,
    pub swap_priority: i32,
}

impl View for ZramDevice {
    type V = ZramDeviceView;

    open spec fn view(&self) -> ZramDeviceView {
        ZramDeviceView {
            name: self.name@,
            size_bytes: self.size_bytes,
            used_bytes: self.used_bytes,
            compr_data_size: self.compr_data_size,
            orig_data_size: self.orig_data_size,
            mem_used_total: self.mem_used_total,
            comp_algorithm: self.comp_algorithm@,
            swap_priority: self.swap_priority,
        }
    }
}

/// What was read for one entry of `/sys/block`: its name and the contents of
/// its `disksize`, `mm_stat` and `comp_algorithm` files (`None` where a file
/// could not be read).
#[derive(Debug, Clone)]
pub struct ZramEntry {
    pub name: String,
    pub disksize: Option<String>,
    pub mm_stat: Option<String>,
    pub comp_algorithm: Option<String>,
}

pub open spec fn opt_view(o: Option<String>) -> Option<Seq<char>> {
    match o {
        Some(s) => Some(s@),
        None => None,
    }
}

/// The fields of `mm_stat` that are numbers, in order.
pub open spec fn numbers(toks: Seq<Seq<char>>) -> Seq<u64>
    decreases toks.len(),
{
    if toks.len() == 0 {
        Seq::empty()
    } else {
        match parse_u64(toks.last()) {
            Some(n) => numbers(toks.drop_last()).push(n),
            None => numbers(toks.drop_last()),
        }
    }
}

pub open spec fn brackets() -> Seq<char> {
    seq!['[', ']']
}

/// The algorithm in use in `comp_algorithm`: the first field which, with
/// its brackets removed and put back, occurs in the file; empty if none.
pub open spec fn selected_algorithm(content: Seq<char>, toks: Seq<Seq<char>>) -> Seq<char>
    decreases toks.len(),
{
    if toks.len() == 0 {
        Seq::empty()
    } else {
        let p = trim_set(toks[0], brackets());
        if contains(content, seq!['['] + p + seq![']']) {
            p
        } else {
            selected_algorithm(content, toks.drop_first())
        }
    }
}

/// Usage and priority of the device from the lines of `/proc/swaps` after the
/// header: the last line that names `/dev/<name>` and has five fields.
pub open spec fn swap_usage(ls: Seq<Seq<char>>, name: Seq<char>) -> (u64, i32)
    decreases ls.len(),
{
    if ls.len() == 0 {
        (0, 0)
    } else {
        let l = ls.last();
        let t = tokens(l);
        if contains(l, "/dev/"@ + name) && t.len() >= 5 {
            (kib_bytes(t[3]), i32_or_zero(t[4]))
        } else {
            swap_usage(ls.drop_last(), name)
        }
    }
}

/// A line of `/proc/swaps` that names `/dev/<name>` has a used size that fits
/// in bytes.
pub open spec fn zram_line_fits(l: Seq<char>, name: Seq<char>) -> bool {
    contains(l, "/dev/"@ + name) && tokens(l).len() >= 5 ==> kib_fits(tokens(l)[3])
}

/// The used sizes of the device's lines of `/proc/swaps` fit in bytes.
pub open spec fn zram_swaps_fit(swaps: Option<Seq<char>>, name: Seq<char>) -> bool {
    match swaps {
        Some(c) => forall|i: int|
            0 <= i < after_first(lines(c)).len() ==> #[trigger] zram_line_fits(
                after_first(lines(c))[i],
                name,
            ),
        None => true,
    }
}

/// Each line of `/proc/swaps` after the header fits, where all do.
proof fn lemma_zram_line_fits(c: Seq<char>, name: Seq<char>, k: int)
    requires
        zram_swaps_fit(Some(c), name),
        0 <= k < after_first(lines(c)).len(),
    ensures
        zram_line_fits(after_first(lines(c))[k], name),
{
    let o: Option<Seq<char>> = Some(c);
    assert(o->0 == c);
    assert(forall|i: int|
        0 <= i < after_first(lines(c)).len() ==> #[trigger] zram_line_fits(
            after_first(lines(c))[i],
            name,
        ));
}

/// The device that an entry of `/sys/block` describes.
pub open spec fn zram_device_of(
    name: Seq<char>,
    disksize: Option<Seq<char>>,
    mm_stat: Option<Seq<char>>,
    comp: Option<Seq<char>>,
    swaps: Option<Seq<char>>,
) -> ZramDeviceView {
    let size = match disksize {
        Some(d) => match parse_u64(trim(d)) {
            Some(n) => n,
            None => 0,
        },
        None => 0,
    };
    let nums = match mm_stat {
        Some(m) => numbers(tokens(m)),
        None => Seq::empty(),
    };
    let alg = match comp {
        Some(c) => selected_algorithm(c, tokens(c)),
        None => Seq::empty(),
    };
    let usage = match swaps {
        Some(s) => swap_usage(after_first(lines(s)), name),
        None => (0u64, 0i32),
    };
    ZramDeviceView {
        name,
        size_bytes: size,
        used_bytes: usage.0,
        compr_data_size: if nums.len() >= 4 { nums[1] } else { 0 },
        orig_data_size: if nums.len() >= 4 { nums[0] } else { 0 },
        mem_used_total: if nums.len() >= 4 { nums[2] } else { 0 },
        comp_algorithm: alg,
        swap_priority: usage.1,
    }
}

/// No `[` or `]` in `s`.
pub open spec fn bracket_free(s: Seq<char>) -> bool {
    forall|k: int| 0 <= k < s.len() ==> (#[trigger] s[k]) != '[' && s[k] != ']'
}

/// A field without brackets is kept whole when its brackets are removed.
proof fn lemma_trim_bracket_free(t: Seq<char>)
    requires
        bracket_free(t),
    ensures
        trim_set(t, brackets()) == t,
{
    if t.len() > 0 {
        assert(!brackets().contains(t[0])) by {
            if brackets().contains(t[0]) {
                let i = choose|i: int| 0 <= i < brackets().len() && brackets()[i] == t[0];
                assert(i == 0 || i == 1);
            }
        }
        assert(!brackets().contains(t.last())) by {
            if brackets().contains(t.last()) {
                let i = choose|i: int| 0 <= i < brackets().len() && brackets()[i] == t.last();
                assert(i == 0 || i == 1);
            }
        }
    }
}

/// A bracketed field `[x]` loses its brackets.
proof fn lemma_trim_bracketed(x: Seq<char>)
    requires
        x.len() > 0,
        bracket_free(x),
    ensures
        trim_set(seq!['['] + x + seq![']'], brackets()) == x,
{
    let m = seq!['['] + x + seq![']'];
    assert(brackets()[0] == '[' && brackets()[1] == ']');
    assert(brackets().contains('['));
    assert(brackets().contains(']'));
    assert(m.drop_first() =~= x + seq![']']);
    assert(m[0] == '[');
    let r = x + seq![']'];
    assert(r[0] == x[0]);
    assert(!brackets().contains(x[0])) by {
        if brackets().contains(x[0]) {
            let i = choose|i: int| 0 <= i < brackets().len() && brackets()[i] == x[0];
            assert(i == 0 || i == 1);
        }
    }
    assert(crate::text::trim_start_set(r, brackets()) == r);
    assert(crate::text::trim_start_set(m, brackets()) == r);
    assert(r.last() == ']');
    assert(r.drop_last() =~= x);
    assert(!brackets().contains(x.last())) by {
        if brackets().contains(x.last()) {
            let i = choose|i: int| 0 <= i < brackets().len() && brackets()[i] == x.last();
            assert(i == 0 || i == 1);
        }
    }
    assert(crate::text::trim_end_set(x, brackets()) == x);
    assert(crate::text::trim_end_set(r, brackets()) == x);
}

/// The first field that, unbracketed and bracketed again, occurs in the
/// file is chosen; if every such field is `x` and some field gives `x`, the
/// choice is `x`.
proof fn lemma_selected_is(c: Seq<char>, toks: Seq<Seq<char>>, x: Seq<char>, k: int)
    requires
        contains(c, seq!['['] + x + seq![']']),
        0 <= k < toks.len(),
        trim_set(toks[k], brackets()) == x,
        forall|j: int|
            0 <= j < toks.len() ==> trim_set(#[trigger] toks[j], brackets()) == x || !contains(
                c,
                seq!['['] + trim_set(toks[j], brackets()) + seq![']'],
            ),
    ensures
        selected_algorithm(c, toks) == x,
    decreases toks.len(),
{
    let p = trim_set(toks[0], brackets());
    assert(trim_set(toks[0], brackets()) == x || !contains(c, seq!['['] + p + seq![']']));
    if !contains(c, seq!['['] + p + seq![']']) {
        assert(k > 0);
        let rest = toks.drop_first();
        assert forall|j: int| 0 <= j < rest.len() implies trim_set(#[trigger] rest[j], brackets()) == x
            || !contains(c, seq!['['] + trim_set(rest[j], brackets()) + seq![']']) by {
            assert(rest[j] == toks[j + 1]);
        }
        assert(rest[k - 1] == toks[k]);
        lemma_selected_is(c, rest, x, k - 1);
    }
}

/// In `a[x]b` with no other bracket, a bracketed field without brackets
/// inside occurs only as `[x]`.
proof fn lemma_only_bracketed(a: Seq<char>, x: Seq<char>, b: Seq<char>, t: Seq<char>, j: int)
    requires
        bracket_free(a),
        bracket_free(x),
        bracket_free(b),
        bracket_free(t),
        occurs_at(a + seq!['['] + x + seq![']'] + b, seq!['['] + t + seq![']'], j),
    ensures
        t == x,
{
    let c = a + seq!['['] + x + seq![']'] + b;
    let pat = seq!['['] + t + seq![']'];
    let na = a.len() as int;
    let nx = x.len() as int;
    let nt = t.len() as int;
    assert(c.subrange(j, j + pat.len()) == pat);
    assert(c[j] == pat[0]);
    assert(pat[0] == '[');
    assert(forall|i: int| 0 <= i < na ==> c[i] == a[i]);
    assert(c[na] == '[');
    assert(forall|i: int| 0 <= i < nx ==> c[na + 1 + i] == x[i]);
    assert(c[na + 1 + nx] == ']');
    assert(forall|i: int| 0 <= i < b.len() ==> c[na + 2 + nx + i] == b[i]);
    if j < na {
        assert(c[j] == a[j]);
    } else if j > na && j <= na + nx {
        assert(c[j] == x[j - na - 1]);
    } else if j > na + nx + 1 {
        assert(c[j] == b[j - na - nx - 2]);
    }
    assert(j == na);
    assert(forall|i: int| 0 <= i < nt ==> c[na + 1 + i] == #[trigger] t[i]) by {
        assert forall|i: int| 0 <= i < nt implies c[na + 1 + i] == #[trigger] t[i] by {
            assert(c[j + 1 + i] == pat[1 + i]);
            assert(pat[1 + i] == t[i]);
        }
    }
    assert(c[na + 1 + nt] == ']') by {
        assert(c[j + 1 + nt] == pat[1 + nt]);
    }
    if nt < nx {
        assert(c[na + 1 + nt] == x[nt]);
    } else if nt > nx {
        assert(c[na + 1 + nx] == t[nx]);
    }
    assert(nt == nx);
    assert forall|i: int| 0 <= i < nt implies t[i] == x[i] by {
        assert(c[na + 1 + i] == t[i]);
    }
    assert(t =~= x);
}

/// The algorithm in use is the one in brackets: where `comp_algorithm`
/// holds the field `[x]` and every other field is unbracketed, the device's
/// algorithm is `x`, even where another field is a prefix of `x` or starts
/// like it.
pub proof fn lemma_bracketed_algorithm(
    a: Seq<char>,
    x: Seq<char>,
    b: Seq<char>,
    name: Seq<char>,
    disksize: Option<Seq<char>>,
    mm_stat: Option<Seq<char>>,
    swaps: Option<Seq<char>>,
)
    requires
        bracket_free(a),
        bracket_free(b),
        bracket_free(x),
        x.len() > 0,
        forall|k: int| 0 <= k < x.len() ==> !crate::text::is_ws(#[trigger] x[k]),
        a.len() == 0 || crate::text::is_ws(a.last()),
        b.len() == 0 || crate::text::is_ws(b[0]),
    ensures
        zram_device_of(
            name,
            disksize,
            mm_stat,
            Some(a + seq!['['] + x + seq![']'] + b),
            swaps,
        ).comp_algorithm == x,
{
    let m = seq!['['] + x + seq![']'];
    let c = a + m + b;
    assert(c =~= a + (m + b));
    assert(c =~= a + seq!['['] + x + seq![']'] + b);
    // The fields of the file: those of `a`, then `[x]`, then those of `b`.
    assert forall|k: int| 0 <= k < m.len() implies !crate::text::is_ws(#[trigger] m[k]) by {
        if k > 0 && k <= x.len() {
            assert(m[k] == x[k - 1]);
        }
    }
    crate::text::lemma_tokens_append_after_ws(a, m + b);
    crate::text::lemma_tokens_word(m);
    if b.len() == 0 {
        assert(m + b =~= m);
        assert(tokens(b) =~= Seq::<Seq<char>>::empty());
    } else {
        crate::text::lemma_tokens_append(m, b);
    }
    let ta = tokens(a);
    let tb = tokens(b);
    let toks = tokens(c);
    assert(toks =~= ta + seq![m] + tb);
    let nb = |ch: char| ch != '[' && ch != ']';
    crate::text::lemma_tokens_chars(a, nb);
    crate::text::lemma_tokens_chars(b, nb);
    lemma_trim_bracketed(x);
    // `[x]` occurs in the file.
    assert(c.subrange(a.len() as int, a.len() + m.len() as int) =~= m);
    crate::text::lemma_contains_at(c, m, a.len() as int);
    let k = ta.len() as int;
    assert(toks[k] == m);
    assert forall|j: int| 0 <= j < toks.len() implies trim_set(#[trigger] toks[j], brackets()) == x
        || !contains(c, seq!['['] + trim_set(toks[j], brackets()) + seq![']']) by {
        if j != k {
            let t = toks[j];
            if j < k {
                assert(t == ta[j]);
                assert forall|i: int| 0 <= i < t.len() implies (#[trigger] t[i]) != '[' && t[i] != ']' by {
                    assert(nb(ta[j][i]));
                }
            } else {
                assert(t == tb[j - k - 1]);
                assert forall|i: int| 0 <= i < t.len() implies (#[trigger] t[i]) != '[' && t[i] != ']' by {
                    assert(nb(tb[j - k - 1][i]));
                }
            }
            lemma_trim_bracket_free(t);
            let pat = seq!['['] + t + seq![']'];
            if contains(c, pat) {
                crate::text::lemma_contains_witness(c, pat);
                lemma_only_bracketed(a, x, b, t, find(c, pat)->0);
            }
        }
    }
    lemma_selected_is(c, toks, x, k);
}

/// The numbers among the fields of `v`.
fn numbers_exec(v: &Vec<char>) -> (r: Vec<u64>)
    ensures
        r@ == numbers(tokens(v@)),
{
    let t = tokens_range(v, 0, v.len());
    assert(v@.subrange(0, v@.len() as int) =~= v@);
    let ghost tv = ranges_view(v@, t@);
    let mut r: Vec<u64> = Vec::new();
    let mut i: usize = 0;
    assert(tv.take(0) =~= Seq::<Seq<char>>::empty());
    while i < t.len()
        invariant
            i <= t.len(),
            tv == ranges_view(v@, t@),
            ranges_within(t@, 0, v@.len() as int),
            r@ == numbers(tv.take(i as int)),
        decreases t.len() - i,
    {
        let (a, b) = t[i];
        assert(tv.take(i + 1).drop_last() =~= tv.take(i as int));
        assert(tv.take(i + 1).last() == v@.subrange(a as int, b as int));
        match parse_u64_range(v, a, b) {
            Some(n) => r.push(n),
            None => {},
        }
        i += 1;
    }
    assert(tv.take(t.len() as int) =~= tv);
    r
}

/// The algorithm in use, from the contents of `comp_algorithm`.
fn selected_algorithm_exec(v: &Vec<char>) -> (r: String)
    ensures
        r@ == selected_algorithm(v@, tokens(v@)),
{
    let t = tokens_range(v, 0, v.len());
    assert(v@.subrange(0, v@.len() as int) =~= v@);
    let ghost tv = ranges_view(v@, t@);
    let br = chars_of("[]");
    proof {
        reveal_strlit("[]");
    }
    assert(br@ =~= brackets());
    let mut i: usize = 0;
    assert(tv.skip(0) =~= tv);
    while i < t.len()
        invariant
            i <= t.len(),
            tv == ranges_view(v@, t@),
            tv == tokens(v@),
            ranges_within(t@, 0, v@.len() as int),
            br@ == brackets(),
            selected_algorithm(v@, tv) == selected_algorithm(v@, tv.skip(i as int)),
        decreases t.len() - i,
    {
        let (a, b) = t[i];
        let ghost rest = tv.skip(i as int);
        assert(rest[0] == v@.subrange(a as int, b as int));
        assert(rest.drop_first() =~= tv.skip(i + 1));
        let (p0, p1) = trim_set_range(v, a, b, &br);
        let mut pat: Vec<char> = Vec::new();
        pat.push('[');
        push_range(&mut pat, v, p0, p1);
        pat.push(']');
        assert(pat@ =~= seq!['['] + v@.subrange(p0 as int, p1 as int) + seq![']']);
        let found = find_exec(v, &pat);
        assert(trim_set(rest[0], brackets()) == v@.subrange(p0 as int, p1 as int));
        if found.is_some() {
            assert(contains(v@, pat@));
            return string_of_range(v, p0, p1);
        }
        assert(!contains(v@, pat@));
        i += 1;
    }
    assert(tv.skip(i as int) =~= Seq::<Seq<char>>::empty());
    String::new()
}

/// Usage and priority of device `name` from the contents of `/proc/swaps`.
fn swap_usage_exec(v: &Vec<char>, name: &String) -> (r: (u64, i32))
    requires
        zram_swaps_fit(Some(v@), name@),
    ensures
        r == swap_usage(after_first(lines(v@)), name@),
{
    let ls = lines_range(v, 0, v.len());
    assert(v@.subrange(0, v@.len() as int) =~= v@);
    let ghost all = lines(v@);
    if ls.len() == 0 {
        assert(after_first(all) =~= Seq::<Seq<char>>::empty());
        return (0, 0);
    }
    let ghost rest = after_first(all);
    let mut pat = chars_of("/dev/");
    push_string(&mut pat, name);
    let mut used: u64 = 0;
    let mut prio: i32 = 0;
    let mut i: usize = 1;
    assert(rest.take(0) =~= Seq::<Seq<char>>::empty());
    while i < ls.len()
        invariant
            1 <= i <= ls.len(),
            all == ranges_view(v@, ls@),
            all == lines(v@),
            rest == after_first(all),
            ranges_within(ls@, 0, v@.len() as int),
            zram_swaps_fit(Some(v@), name@),
            pat@ == "/dev/"@ + name@,
            (used, prio) == swap_usage(rest.take(i - 1), name@),
        decreases ls.len() - i,
    {
        let (lo, hi) = ls[i];
        let ghost line = all[i as int];
        assert(line == v@.subrange(lo as int, hi as int));
        assert(rest[i - 1] == line);
        assert(rest.take(i as int).drop_last() =~= rest.take(i - 1));
        let mut lv: Vec<char> = Vec::new();
        push_range(&mut lv, v, lo, hi);
        assert(lv@ =~= line);
        if find_exec(&lv, &pat).is_some() {
            let t = tokens_range(v, lo, hi);
            if t.len() >= 5 {
                let ghost tv = ranges_view(v@, t@);
                let (u0, u1) = t[3];
                let (q0, q1) = t[4];
                assert(tv[3] == v@.subrange(u0 as int, u1 as int));
                assert(tv[4] == v@.subrange(q0 as int, q1 as int));
                assert(contains(line, "/dev/"@ + name@));
                assert(tokens(line) == tv) by {
                    assert(v@.subrange(lo as int, hi as int) == line);
                }
                assert(after_first(lines(v@))[i - 1] == line);
                proof {
                    lemma_zram_line_fits(v@, name@, i - 1);
                }
                used = kib_bytes_range(v, u0, u1);
                prio = i32_or_zero_range(v, q0, q1);
            }
        }
        i += 1;
    }
    assert(rest.take(i - 1) =~= rest);
    (used, prio)
}

/// The device that an entry of `/sys/block` describes, given `/proc/swaps`.
pub fn read_zram_device(entry: &ZramEntry, swaps: &Option<String>) -> (d: ZramDevice)
    requires
        zram_swaps_fit(opt_view(*swaps), entry.name@),
    ensures
        d@ == zram_device_of(
            entry.name@,
            opt_view(entry.disksize),
            opt_view(entry.mm_stat),
            opt_view(entry.comp_algorithm),
            opt_view(*swaps),
        ),
{
    let size = match &entry.disksize {
        Some(c) => {
            let v = chars_of(c.as_str());
            let (a, b) = trim_range(&v, 0, v.len());
            assert(v@.subrange(0, v@.len() as int) =~= v@);
            match parse_u64_range(&v, a, b) {
                Some(n) => n,
                None => 0,
            }
        },
        None => 0,
    };
    let (orig, compr, mem) = match &entry.mm_stat {
        Some(c) => {
            let v = chars_of(c.as_str());
            let nums = numbers_exec(&v);
            if nums.len() >= 4 {
                (nums[0], nums[1], nums[2])
            } else {
                (0, 0, 0)
            }
        },
        None => (0, 0, 0),
    };
    let alg = match &entry.comp_algorithm {
        Some(c) => {
            let v = chars_of(c.as_str());
            selected_algorithm_exec(&v)
        },
        None => String::new(),
    };
    let (used, prio) = match swaps {
        Some(c) => {
            let v = chars_of(c.as_str());
            swap_usage_exec(&v, &entry.name)
        },
        None => (0, 0),
    };
    ZramDevice {
        name: entry.name.clone(),
        size_bytes: size,
        used_bytes: used,
        compr_data_size: compr,
        orig_data_size: orig,
        mem_used_total: mem,
        comp_algorithm: alg,
        swap_priority: prio,
    }
}

/// The zram devices among the entries of `/sys/block`: those whose name
/// starts with `zram`, in order.
pub open spec fn zram_devices_of(entries: Seq<ZramEntry>, swaps: Option<Seq<char>>) -> Seq<
    ZramDeviceView,
>
    decreases entries.len(),
{
    if entries.len() == 0 {
        Seq::empty()
    } else {
        let e = entries.last();
        let rest = zram_devices_of(entries.drop_last(), swaps);
        if starts_with(e.name@, "zram"@) {
            rest.push(
                zram_device_of(
                    e.name@,
                    opt_view(e.disksize),
                    opt_view(e.mm_stat),
                    opt_view(e.comp_algorithm),
                    swaps,
                ),
            )
        } else {
            rest
        }
    }
}

pub open spec fn devices_view(d: Seq<ZramDevice>) -> Seq<ZramDeviceView> {
    d.map_values(|x: ZramDevice| x@)
}

/// Lists the zram devices, from the entries of `/sys/block` and the contents
/// of `/proc/swaps` (`None` when it could not be read).
pub fn read_zram_devices(entries: &Vec<ZramEntry>, swaps: &Option<String>) -> (r: Vec<ZramDevice>)
    requires
        forall|i: int|
            0 <= i < entries.len() ==> zram_swaps_fit(opt_view(*swaps), (#[trigger] entries@[i]).name@),
    ensures
        devices_view(r@) == zram_devices_of(entries@, opt_view(*swaps)),
{
    let zram = chars_of("zram");
    let mut r: Vec<ZramDevice> = Vec::new();
    let mut i: usize = 0;
    assert(entries@.take(0) =~= Seq::<ZramEntry>::empty());
    while i < entries.len()
        invariant
            i <= entries.len(),
            zram@ == "zram"@,
            forall|k: int|
                0 <= k < entries.len() ==> zram_swaps_fit(opt_view(*swaps), (#[trigger] entries@[k]).name@),
            devices_view(r@) == zram_devices_of(entries@.take(i as int), opt_view(*swaps)),
        decreases entries.len() - i,
    {
        let e = &entries[i];
        assert(entries@.take(i + 1).drop_last() =~= entries@.take(i as int));
        assert(entries@.take(i + 1).last() == *e);
        let nv = chars_of(e.name.as_str());
        assert(nv@.subrange(0, nv@.len() as int) =~= nv@);
        if starts_with_range(&nv, 0, nv.len(), &zram) {
            let d = read_zram_device(e, swaps);
            let ghost before = r@;
            r.push(d);
            assert(devices_view(r@) =~= devices_view(before).push(d@));
        }
        i += 1;
    }
    assert(entries@.take(entries.len() as int) =~= entries@);
    r
}

/// A copy of a device.
pub fn copy_device(d: &ZramDevice) -> (r: ZramDevice)
    ensures
        r@ == d@,
{
    ZramDevice {
        name: d.name.clone(),
        size_bytes: d.size_bytes,
        used_bytes: d.used_bytes,
        compr_data_size: d.compr_data_size,
        orig_data_size: d.orig_data_size,
        mem_used_total: d.mem_used_total,
        comp_algorithm: d.comp_algorithm.clone(),
        swap_priority: d.swap_priority,
    }
}

/// A device with no name and every figure zero.
pub open spec fn no_device() -> ZramDeviceView {
    ZramDeviceView {
        name: Seq::empty(),
        size_bytes: 0,
        used_bytes: 0,
        compr_data_size: 0,
        orig_data_size: 0,
        mem_used_total: 0,
        comp_algorithm: Seq::empty(),
        swap_priority: 0,
    }
}

/// The first device named `dev_name`, or `no_device()`.
pub open spec fn stats_of(devs: Seq<ZramDeviceView>, dev_name: Seq<char>) -> ZramDeviceView
    decreases devs.len(),
{
    if devs.len() == 0 {
        no_device()
    } else if devs[0].name == dev_name {
        devs[0]
    } else {
        stats_of(devs.drop_first(), dev_name)
    }
}

/// Details of the device named `dev_name` among `devices`; a device with no
/// name and zero figures when there is none.
pub fn get_zram_stats(devices: &Vec<ZramDevice>, dev_name: &str) -> (d: ZramDevice)
    ensures
        d@ == stats_of(devices_view(devices@), dev_name@),
{
    let name = owned(dev_name);
    let ghost dv = devices_view(devices@);
    let mut i: usize = 0;
    assert(dv.skip(0) =~= dv);
    while i < devices.len()
        invariant
            i <= devices.len(),
            dv == devices_view(devices@),
            name@ == dev_name@,
            stats_of(dv, dev_name@) == stats_of(dv.skip(i as int), dev_name@),
        decreases devices.len() - i,
    {
        assert(dv.skip(i as int)[0] == devices@[i as int]@);
        assert(dv.skip(i as int).drop_first() =~= dv.skip(i + 1));
        if devices[i].name == name {
            return copy_device(&devices[i]);
        }
        i += 1;
    }
    assert(dv.skip(i as int) =~= Seq::<ZramDeviceView>::empty());
    ZramDevice {
        name: String::new(),
        size_bytes: 0,
        used_bytes: 0,
        compr_data_size: 0,
        orig_data_size: 0,
        mem_used_total: 0,
        comp_algorithm: String::new(),
        swap_priority: 0,
    }
}

/// The algorithms known to the kernel's zram module when no device exists.
pub open spec fn fallback_algorithms() -> Seq<Seq<char>> {
    seq!["lzo-rle"@, "lzo"@, "lz4"@, "lz4hc"@, "zstd"@, "deflate"@, "842"@]
}

/// The compression algorithms of zram: the fields of the first device's
/// `comp_algorithm` file, brackets removed; the fallback list when there is
/// no device, its file could not be read or it holds no field.
pub open spec fn algorithms_of(first_comp: Option<Seq<char>>) -> Seq<Seq<char>> {
    match first_comp {
        Some(c) => if tokens(c).len() > 0 {
            tokens(c).map_values(|t: Seq<char>| trim_set(t, brackets()))
        } else {
            fallback_algorithms()
        },
        None => fallback_algorithms(),
    }
}

/// The fallback list of algorithms.
fn fallback_list() -> (r: Vec<String>)
    ensures
        strings_view(r@) == fallback_algorithms(),
{
    let mut r = Vec::new();
    r.push(owned("lzo-rle"));
    r.push(owned("lzo"));
    r.push(owned("lz4"));
    r.push(owned("lz4hc"));
    r.push(owned("zstd"));
    r.push(owned("deflate"));
    r.push(owned("842"));
    assert(strings_view(r@) =~= fallback_algorithms());
    r
}

/// The compression algorithms supported by zram, from the contents of the
/// first device's `comp_algorithm` file (`None` when there is no device or
/// the file could not be read).
pub fn get_available_algorithms(first_comp: Option<String>) -> (r: Vec<String>)
    ensures
        strings_view(r@) == algorithms_of(opt_view(first_comp)),
{
    match first_comp {
        Some(c) => {
            let v = chars_of(c.as_str());
            let t = tokens_range(&v, 0, v.len());
            assert(v@.subrange(0, v@.len() as int) =~= v@);
            let ghost tv = ranges_view(v@, t@);
            if t.len() == 0 {
                return fallback_list();
            }
            let br = chars_of("[]");
            proof {
                reveal_strlit("[]");
            }
            assert(br@ =~= brackets());
            let mut r: Vec<String> = Vec::new();
            let mut i: usize = 0;
            while i < t.len()
                invariant
                    i <= t.len(),
                    tv == ranges_view(v@, t@),
                    ranges_within(t@, 0, v@.len() as int),
                    br@ == brackets(),
                    strings_view(r@) == tv.take(i as int).map_values(
                        |t: Seq<char>| trim_set(t, brackets()),
                    ),
                decreases t.len() - i,
            {
                let (a, b) = t[i];
                assert(tv[i as int] == v@.subrange(a as int, b as int));
                let (p0, p1) = trim_set_range(&v, a, b, &br);
                let ghost before = r@;
                r.push(string_of_range(&v, p0, p1));
                assert(strings_view(r@) =~= strings_view(before).push(
                    trim_set(tv[i as int], brackets()),
                ));
                assert(tv.take(i + 1).map_values(|t: Seq<char>| trim_set(t, brackets()))
                    =~= tv.take(i as int).map_values(|t: Seq<char>| trim_set(t, brackets())).push(
                    trim_set(tv[i as int], brackets()),
                ));
                i += 1;
            }
            assert(tv.take(t.len() as int) =~= tv);
            r
        },
        None => fallback_list(),
    }
}

/// `helper zramctl -f -s <size_mb>M -a <algo>`.
pub open spec fn zramctl_create(size_mb: u64, algo: Seq<char>) -> RequestView {
    helper("zramctl"@, seq!["-f"@, "-s"@, dec_string(size_mb as nat) + "M"@, "-a"@, algo])
}

/// Creates a zram device: loads the module (its failure ignored), then asks
/// `zramctl` for a free device of `size_mb` MiB using `algo`; the plan
/// reports the output of `zramctl`, which `zram_device_path` reads.
pub fn create_zram_device(size_mb: u64, algo: &str) -> (p: Plan)
    ensures
        p@ == (PlanView {
            steps: seq![may(helper("modprobe"@, seq!["zram"@])), must(zramctl_create(size_mb, algo@))],
            finish: FinishView::LastOutput,
        }),
{
    let mut steps = Vec::new();
    add_step(&mut steps, crate::swap::exec::run_modprobe("zram"), OnError::Ignore);
    let mut size = Vec::new();
    push_dec(&mut size, size_mb);
    push_str(&mut size, "M");
    let mut args = Vec::new();
    args.push(owned("-f"));
    args.push(owned("-s"));
    args.push(string_of(&size));
    args.push(owned("-a"));
    args.push(owned(algo));
    assert(strings_view(args@) =~= seq!["-f"@, "-s"@, dec_string(size_mb as nat) + "M"@, "-a"@, algo@]);
    add_step(&mut steps, helper_request("zramctl", args), OnError::Stop);
    let p = Plan { steps, finish: Finish::LastOutput };
    assert(p@.steps =~= seq![may(helper("modprobe"@, seq!["zram"@])), must(zramctl_create(size_mb, algo@))]);
    p
}

/// The device path that `zramctl` printed: its output, trimmed; empty output
/// is an error.
pub fn zram_device_path(output: &str) -> (r: Result<String, String>)
    ensures
        trim(output@).len() > 0 ==> (r matches Ok(p) && p@ == trim(output@)),
        trim(output@).len() == 0 ==> (r matches Err(m) && m@ == "zramctl did not return a device path"@),
{
    let p = crate::text::trim_string(output);
    if p.as_str().is_empty() {
        Err(owned("zramctl did not return a device path"))
    } else {
        Ok(p)
    }
}

/// Turns a new zram device into swap: `mkswap <dev>`, then
/// `swapon -p <priority> <dev>`; the plan reports the device path.
pub fn activate_zram_device(dev_path: &str, priority: i32) -> (p: Plan)
    ensures
        p@ == (PlanView {
            steps: seq![
                must(helper("mkswap"@, seq![dev_path@])),
                must(helper("swapon"@, seq!["-p"@, int_string(priority as int), dev_path@])),
            ],
            finish: FinishView::Message(dev_path@),
        }),
{
    let mut steps = Vec::new();
    add_step(&mut steps, helper_request("mkswap", one(dev_path)), OnError::Stop);
    let mut pr = Vec::new();
    push_int(&mut pr, priority as i64);
    let mut args = Vec::new();
    args.push(owned("-p"));
    args.push(string_of(&pr));
    args.push(owned(dev_path));
    assert(strings_view(args@) =~= seq!["-p"@, int_string(priority as int), dev_path@]);
    add_step(&mut steps, helper_request("swapon", args), OnError::Stop);
    let p = Plan { steps, finish: Finish::Message(owned(dev_path)) };
    assert(p@.steps =~= seq![
        must(helper("mkswap"@, seq![dev_path@])),
        must(helper("swapon"@, seq!["-p"@, int_string(priority as int), dev_path@])),
    ]);
    p
}

/// Destroys a zram device: `swapoff` (its failure ignored), then
/// `zramctl -r`; the plan reports the output of `zramctl`.
pub fn destroy_zram_device(dev_path: &str) -> (p: Plan)
    ensures
        p@ == (PlanView {
            steps: seq![
                may(helper("swapoff"@, seq![dev_path@])),
                must(helper("zramctl"@, seq!["-r"@, dev_path@])),
            ],
            finish: FinishView::LastOutput,
        }),
{
    let mut steps = Vec::new();
    add_step(&mut steps, helper_request("swapoff", one(dev_path)), OnError::Ignore);
    let mut args = Vec::new();
    args.push(owned("-r"));
    args.push(owned(dev_path));
    assert(strings_view(args@) =~= seq!["-r"@, dev_path@]);
    add_step(&mut steps, helper_request("zramctl", args), OnError::Stop);
    let p = Plan { steps, finish: Finish::LastOutput };
    assert(p@.steps =~= seq![
        may(helper("swapoff"@, seq![dev_path@])),
        must(helper("zramctl"@, seq!["-r"@, dev_path@])),
    ]);
    p
}

/// The description shown for a zram compression algorithm: speed, ratio and
/// advice; empty for an algorithm it does not know.
pub open spec fn algorithm_description(name: Seq<char>) -> Seq<char> {
    if name == "lz4"@ {
        "⚡⚡ Fastest · ⭐⭐ Good  —  Recommended"@
    } else if name == "lzo-rle"@ {
        "⚡ Fast · ⭐⭐ Good  —  Desktop alternative"@
    } else if name == "zstd"@ {
        "⚡ Moderate · ⭐⭐⭐ Best  —  Best for small RAM"@
    } else if name == "lz4hc"@ {
        "⚡ Slow · ⭐⭐⭐ High  —  Server workloads"@
    } else if name == "lzo"@ {
        "⚡ Fast · ⭐ Moderate  —  Legacy (avoid)"@
    } else if name == "deflate"@ {
        "🐢 Slowest · ⭐⭐⭐ High  —  Avoid on desktops"@
    } else if name == "842"@ {
        "— · —  —  IBM POWER only"@
    } else {
        ""@
    }
}

/// A description of a zram compression algorithm: speed, ratio and advice.
pub fn algo_info_for(name: &str) -> (s: &'static str)
    ensures
        s@ == algorithm_description(name@),
{
    let v = chars_of(name);
    let n = v.len();
    assert(v@.subrange(0, n as int) =~= v@);
    if crate::text::eq_str(&v, 0, n, "lz4") {
        "⚡⚡ Fastest · ⭐⭐ Good  —  Recommended"
    } else if crate::text::eq_str(&v, 0, n, "lzo-rle") {
        "⚡ Fast · ⭐⭐ Good  —  Desktop alternative"
    } else if crate::text::eq_str(&v, 0, n, "zstd") {
        "⚡ Moderate · ⭐⭐⭐ Best  —  Best for small RAM"
    } else if crate::text::eq_str(&v, 0, n, "lz4hc") {
        "⚡ Slow · ⭐⭐⭐ High  —  Server workloads"
    } else if crate::text::eq_str(&v, 0, n, "lzo") {
        "⚡ Fast · ⭐ Moderate  —  Legacy (avoid)"
    } else if crate::text::eq_str(&v, 0, n, "deflate") {
        "🐢 Slowest · ⭐⭐⭐ High  —  Avoid on desktops"
    } else if crate::text::eq_str(&v, 0, n, "842") {
        "— · —  —  IBM POWER only"
    } else {
        ""
    }
}

/// The size hint shown for a zram device: `(Recommended)` for `lzo-rle`.
pub fn algorithm_tag(name: &str) -> (s: &'static str)
    ensures
        name@ == "lzo-rle"@ ==> s@ == "(Recommended)"@,
        name@ != "lzo-rle"@ ==> s@ == ""@,
{
    let v = chars_of(name);
    assert(v@.subrange(0, v@.len() as int) =~= v@);
    if crate::text::eq_str(&v, 0, v.len(), "lzo-rle") {
        "(Recommended)"
    } else {
        ""
    }
}

} // verus!
