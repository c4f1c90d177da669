//! The disk swap file: its status in `/proc/swaps`, and the operations that
//! create, resize, enable, disable and delete it.
use vstd::prelude::*;
use crate::swap::exec::{
    add_step, helper, helper_request, may, must, one, single, FinishView, OnError, Plan,
    PlanView, Finish, Request, Step,
};
use crate::swap::types::SwapStatus;
use crate::text::{
    chars_of, contains, dec_string, find_exec, lines, lines_range, owned, parse_i32,
    parse_i32_range, parse_u64, parse_u64_range, push_dec, push_str, ranges_view, strings_view,
    string_of, string_of_range, tokens, tokens_range, trim, trim_range,
};

verus! {

/// Path of the swap file.
pub const SWAPFILE_PATH: &'static str = "/swapfile";

/// Path of the kernel's list of active swap areas.
pub const PROC_SWAPS: &'static str = "/proc/swaps";

/// A swap status, as plain values.
pub struct SwapStatusView {
    pub active: bool,
    pub path: Seq<char>,
    pub size_bytes: u64,
    pub used_bytes: u64,
    pub priority: i32,
}

impl View for SwapStatus {
    type V = SwapStatusView;

    open spec fn view(&self) -> SwapStatusView {
        SwapStatusView {
            active: self.active,
            path: self.path@,
            size_bytes: self.size_bytes,
            used_bytes: self.used_bytes,
            priority: self.priority,
        }
    }
}

/// A size in KiB, as written in `/proc`, fits in bytes in a `u64`.
pub open spec fn kib_fits(s: Seq<char>) -> bool {
    parse_u64(s) matches Some(k) ==> k <= u64::MAX / 1024
}

/// A size in KiB converted to bytes; 0 where it is not a number.
pub open spec fn kib_bytes(s: Seq<char>) -> u64 {
    match parse_u64(s) {
        Some(k) => (k * 1024) as u64,
        None => 0,
    }
}

/// A number, or 0 where it is not one (`parse().unwrap_or(0)`).
pub open spec fn i32_or_zero(s: Seq<char>) -> i32 {
    match parse_i32(s) {
        Some(n) => n,
        None => 0,
    }
}

/// Scan state over the lines of `/proc/swaps`: the chosen entry and whether
/// the swap file itself was found (which ends the scan).
pub struct SwapScan {
    pub status: SwapStatusView,
    pub done: bool,
}

pub open spec fn empty_swap_status() -> SwapStatusView {
    SwapStatusView { active: false, path: Seq::empty(), size_bytes: 0, used_bytes: 0, priority: 0 }
}

/// One line of `/proc/swaps`: an entry with at least five fields is taken
/// when it is the swap file, or when no entry was taken yet and it is not a
/// zram device.
pub open spec fn swap_line(st: SwapScan, line: Seq<char>) -> SwapScan {
    let t = tokens(trim(line));
    if st.done || trim(line).len() == 0 || t.len() < 5 {
        st
    } else {
        let is_swapfile = t[0] == SWAPFILE_PATH@;
        if is_swapfile || (st.status.path.len() == 0 && !contains(t[0], "zram"@)) {
            SwapScan {
                status: SwapStatusView {
                    active: true,
                    path: t[0],
                    size_bytes: kib_bytes(t[2]),
                    used_bytes: kib_bytes(t[3]),
                    priority: i32_or_zero(t[4]),
                },
                done: is_swapfile,
            }
        } else {
            st
        }
    }
}

pub open spec fn swap_scan(ls: Seq<Seq<char>>) -> SwapScan
    decreases ls.len(),
{
    if ls.len() == 0 {
        SwapScan { status: empty_swap_status(), done: false }
    } else {
        swap_line(swap_scan(ls.drop_last()), ls.last())
    }
}

/// The lines after the first (`lines().skip(1)`).
pub open spec fn after_first(ls: Seq<Seq<char>>) -> Seq<Seq<char>> {
    if ls.len() == 0 {
        ls
    } else {
        ls.skip(1)
    }
}

/// The sizes of every entry of `/proc/swaps` fit in bytes in a `u64`.
pub open spec fn swaps_fit(content: Seq<char>) -> bool {
    forall|i: int|
        1 <= i < lines(content).len() ==> {
            let t = #[trigger] tokens(trim(lines(content)[i]));
            t.len() >= 5 ==> kib_fits(t[2]) && kib_fits(t[3])
        }
}

/// The status that `/proc/swaps` (its header line skipped) gives, given
/// whether `/swapfile` exists: a listed `/swapfile` that no longer exists is
/// not active.
pub open spec fn swap_status_of(content: Seq<char>, swapfile_exists: bool) -> SwapStatusView {
    let st = swap_scan(after_first(lines(content))).status;
    if st.path.len() > 0 && !swapfile_exists && st.path == SWAPFILE_PATH@ {
        SwapStatusView { active: false, ..st }
    } else {
        st
    }
}

/// `kib_bytes` of `v[lo..hi]`.
pub fn kib_bytes_range(v: &Vec<char>, lo: usize, hi: usize) -> (r: u64)
    requires
        lo <= hi <= v.len(),
        kib_fits(v@.subrange(lo as int, hi as int)),
    ensures
        r == kib_bytes(v@.subrange(lo as int, hi as int)),
{
    match parse_u64_range(v, lo, hi) {
        Some(k) => k * 1024,
        None => 0,
    }
}

/// `i32_or_zero` of `v[lo..hi]`.
pub fn i32_or_zero_range(v: &Vec<char>, lo: usize, hi: usize) -> (r: i32)
    requires
        lo <= hi <= v.len(),
    ensures
        r == i32_or_zero(v@.subrange(lo as int, hi as int)),
{
    match parse_i32_range(v, lo, hi) {
        Some(n) => n,
        None => 0,
    }
}

/// Reads the swap status from the contents of `/proc/swaps` (or the error
/// that reading it gave) and whether `/swapfile` exists.
pub fn read_swap_status(content: Result<String, String>, swapfile_exists: bool) -> (r: Result<
    SwapStatus,
    String,
>)
    requires
        content matches Ok(c) ==> swaps_fit(c@),
    ensures
        content matches Err(e) ==> r matches Err(m) && m@ == "Cannot read /proc/swaps: "@ + e@,
        content matches Ok(c) ==> r matches Ok(st) && st@ == swap_status_of(c@, swapfile_exists),
{
    let c = match content {
        Err(e) => {
            let mut m = chars_of("Cannot read /proc/swaps: ");
            push_str(&mut m, e.as_str());
            return Err(string_of(&m));
        },
        Ok(c) => c,
    };
    let v = chars_of(c.as_str());
    let ls = lines_range(&v, 0, v.len());
    assert(v@.subrange(0, v@.len() as int) =~= v@);
    let ghost all = lines(v@);
    let swapfile = chars_of(SWAPFILE_PATH);
    let zram = chars_of("zram");
    let mut active = false;
    let mut path_lo: usize = 0;
    let mut path_hi: usize = 0;
    let mut size: u64 = 0;
    let mut used: u64 = 0;
    let mut prio: i32 = 0;
    let mut done = false;
    if ls.len() == 0 {
        assert(swap_scan(after_first(all)) == SwapScan { status: empty_swap_status(), done: false });
        assert(v@.subrange(0, 0) =~= Seq::<char>::empty());
        return Ok(SwapStatus { active: false, path: String::new(), size_bytes: 0, used_bytes: 0, priority: 0 });
    }
    let ghost rest = after_first(all);
    assert(rest.take(0) =~= Seq::<Seq<char>>::empty());
    assert(v@.subrange(0, 0) =~= Seq::<char>::empty());
    let mut i: usize = 1;
    while i < ls.len()
        invariant
            1 <= i <= ls.len(),
            all == ranges_view(v@, ls@),
            rest == after_first(all),
            swaps_fit(v@),
            all == lines(v@),
            path_lo <= path_hi <= v.len(),
            crate::text::ranges_within(ls@, 0, v@.len() as int),
            swap_scan(rest.take(i - 1)) == (SwapScan {
                status: SwapStatusView {
                    active,
                    path: v@.subrange(path_lo as int, path_hi as int),
                    size_bytes: size,
                    used_bytes: used,
                    priority: prio,
                },
                done,
            }),
            swapfile@ == SWAPFILE_PATH@,
            zram@ == "zram"@,
        decreases ls.len() - i,
    {
        let (lo, hi) = ls[i];
        let ghost line = all[i as int];
        let ghost prefix = rest.take(i - 1);
        assert(line == v@.subrange(lo as int, hi as int));
        assert(rest.take(i as int) =~= prefix.push(line));
        assert(prefix.push(line).drop_last() =~= prefix);
        assert(swap_scan(rest.take(i as int)) == swap_line(swap_scan(prefix), line));
        let (a, b) = trim_range(&v, lo, hi);
        if !done && a < b {
            let t = tokens_range(&v, a, b);
            let ghost tv = ranges_view(v@, t@);
            if t.len() >= 5 {
                assert(tv == tokens(trim(line)));
                assert(kib_fits(tv[2]) && kib_fits(tv[3]));
                let (p0, p1) = t[0];
                assert(tv[0] == v@.subrange(p0 as int, p1 as int));
                let is_swapfile = crate::text::eq_range(&v, p0, p1, &swapfile);
                let mut pv: Vec<char> = Vec::new();
                crate::text::push_range(&mut pv, &v, p0, p1);
                assert(pv@ =~= tv[0]);
                let no_zram = find_exec(&pv, &zram).is_none();
                if is_swapfile || (path_lo == path_hi && no_zram) {
                    let (s0, s1) = t[2];
                    let (u0, u1) = t[3];
                    let (q0, q1) = t[4];
                    assert(tv[2] == v@.subrange(s0 as int, s1 as int));
                    assert(tv[3] == v@.subrange(u0 as int, u1 as int));
                    assert(tv[4] == v@.subrange(q0 as int, q1 as int));
                    active = true;
                    path_lo = p0;
                    path_hi = p1;
                    size = kib_bytes_range(&v, s0, s1);
                    used = kib_bytes_range(&v, u0, u1);
                    prio = i32_or_zero_range(&v, q0, q1);
                    done = is_swapfile;
                }
            }
        }
        i += 1;
    }
    assert(rest.take(i - 1) =~= rest);
    let path = string_of_range(&v, path_lo, path_hi);
    if path_lo < path_hi && !swapfile_exists && crate::text::eq_range(&v, path_lo, path_hi, &swapfile) {
        active = false;
    }
    Ok(SwapStatus { active, path, size_bytes: size, used_bytes: used, priority: prio })
}

/// Whether any swap is active: the status that `/proc/swaps` gives is active;
/// not when it cannot be read.
pub fn is_swap_active(content: Result<String, String>, swapfile_exists: bool) -> (b: bool)
    requires
        content matches Ok(c) ==> swaps_fit(c@),
    ensures
        b == (content matches Ok(c) && swap_status_of(c@, swapfile_exists).active),
{
    match read_swap_status(content, swapfile_exists) {
        Ok(s) => s.active,
        Err(_) => false,
    }
}

/// `helper <subcmd> /swapfile`.
pub open spec fn on_swapfile(subcmd: Seq<char>) -> crate::swap::exec::RequestView {
    helper(subcmd, seq![SWAPFILE_PATH@])
}

/// Enables the swap file: `helper swapon /swapfile`.
pub fn enable_swapfile() -> (p: Plan)
    ensures
        p@ == (PlanView { steps: seq![must(on_swapfile("swapon"@))], finish: FinishView::LastOutput }),
{
    single(helper_request("swapon", one(SWAPFILE_PATH)))
}

/// Disables the swap file: `helper swapoff /swapfile`.
pub fn disable_swapfile() -> (p: Plan)
    ensures
        p@ == (PlanView { steps: seq![must(on_swapfile("swapoff"@))], finish: FinishView::LastOutput }),
{
    single(helper_request("swapoff", one(SWAPFILE_PATH)))
}

/// `helper dd if=/dev/zero of=/swapfile bs=1M count=<size_gb·1024> status=none`.
pub open spec fn dd_request(size_gb: u64) -> crate::swap::exec::RequestView {
    helper(
        "dd"@,
        seq![
            "if=/dev/zero"@,
            "of="@ + SWAPFILE_PATH@,
            "bs=1M"@,
            "count="@ + dec_string((size_gb * 1024) as nat),
            "status=none"@,
        ],
    )
}

/// The steps that write a fresh swap file of `size_gb` GiB and enable it.
pub open spec fn fill_steps(size_gb: u64) -> Seq<crate::swap::exec::StepView> {
    seq![
        must(dd_request(size_gb)),
        must(helper("chmod"@, seq!["600"@, SWAPFILE_PATH@])),
        must(on_swapfile("mkswap"@)),
        must(on_swapfile("swapon"@)),
    ]
}

/// The swap file that the steps write holds `size_gb` GiB: the first step
/// runs `dd` with blocks of 1 MiB (`bs=1M`) and a count, a decimal number,
/// such that the count times 1 MiB is `size_gb` GiB.
pub proof fn lemma_swapfile_size(size_gb: u64)
    ensures
        fill_steps(size_gb)[0].request matches crate::swap::exec::RequestView::Helper { subcmd, args }
            && subcmd == "dd"@ && args.len() == 5 && args[2] == "bs=1M"@ && args[3].take(6)
            == "count="@ && crate::text::all_digits(args[3].skip(6)) && args[3].skip(6).len() > 0
            && crate::text::dec_value(args[3].skip(6)) * 1048576 == size_gb as int * 1073741824,
{
    reveal_strlit("count=");
    let k = (size_gb * 1024) as nat;
    crate::text::lemma_dec_string(k);
    let arg = "count="@ + dec_string(k);
    assert(arg.take(6) =~= "count="@);
    assert(arg.skip(6) =~= dec_string(k));
    assert(k * 1048576 == size_gb as int * 1073741824) by (nonlinear_arith)
        requires
            k == size_gb * 1024,
    ;
}

fn dd(size_gb: u64) -> (r: Request)
    requires
        size_gb <= u64::MAX / 1024,
    ensures
        r@ == dd_request(size_gb),
{
    let mut of = chars_of("of=");
    push_str(&mut of, SWAPFILE_PATH);
    let mut count = chars_of("count=");
    push_dec(&mut count, size_gb * 1024);
    let mut args = Vec::new();
    args.push(owned("if=/dev/zero"));
    args.push(string_of(&of));
    args.push(owned("bs=1M"));
    args.push(string_of(&count));
    args.push(owned("status=none"));
    let r = helper_request("dd", args);
    assert(strings_view(args@) =~= seq![
        "if=/dev/zero"@,
        "of="@ + SWAPFILE_PATH@,
        "bs=1M"@,
        "count="@ + dec_string((size_gb * 1024) as nat),
        "status=none"@,
    ]);
    r
}

fn push_fill_steps(steps: &mut Vec<Step>, size_gb: u64)
    requires
        size_gb <= u64::MAX / 1024,
    ensures
        final(steps)@.map_values(|s: Step| s@) == old(steps)@.map_values(|s: Step| s@) + fill_steps(
            size_gb,
        ),
{
    add_step(steps, dd(size_gb), OnError::Stop);
    let mut a = Vec::new();
    a.push(owned("600"));
    a.push(owned(SWAPFILE_PATH));
    assert(strings_view(a@) =~= seq!["600"@, SWAPFILE_PATH@]);
    add_step(steps, helper_request("chmod", a), OnError::Stop);
    add_step(steps, helper_request("mkswap", one(SWAPFILE_PATH)), OnError::Stop);
    add_step(steps, helper_request("swapon", one(SWAPFILE_PATH)), OnError::Stop);
    assert(steps@.map_values(|s: Step| s@) =~= old(steps)@.map_values(|s: Step| s@) + fill_steps(
        size_gb,
    ));
}


/// Creates a swap file of `size_gb` GiB and enables it; the plan reports the
/// output of `swapon`.
pub fn create_swapfile(size_gb: u64) -> (p: Plan)
    requires
        size_gb <= u64::MAX / 1024,
    ensures
        p@ == (PlanView { steps: fill_steps(size_gb), finish: FinishView::LastOutput }),
{
    let mut steps = Vec::new();
    push_fill_steps(&mut steps, size_gb);
    assert(steps@.map_values(|s: Step| s@) =~= fill_steps(size_gb));
    Plan { steps, finish: Finish::LastOutput }
}

/// Deletes the swap file: `swapoff` (its failure ignored), then `rm -f`.
pub fn delete_swapfile() -> (p: Plan)
    ensures
        p@ == (PlanView {
            steps: seq![
                may(on_swapfile("swapoff"@)),
                must(helper("rm"@, seq!["-f"@, SWAPFILE_PATH@])),
            ],
            finish: FinishView::LastOutput,
        }),
{
    let mut steps = Vec::new();
    add_step(&mut steps, helper_request("swapoff", one(SWAPFILE_PATH)), OnError::Ignore);
    let mut a = Vec::new();
    a.push(owned("-f"));
    a.push(owned(SWAPFILE_PATH));
    assert(strings_view(a@) =~= seq!["-f"@, SWAPFILE_PATH@]);
    add_step(&mut steps, helper_request("rm", a), OnError::Stop);
    let p = Plan { steps, finish: Finish::LastOutput };
    assert(p@.steps =~= seq![
        may(on_swapfile("swapoff"@)),
        must(helper("rm"@, seq!["-f"@, SWAPFILE_PATH@])),
    ]);
    p
}

/// Resizes the swap file to `new_size_gb` GiB: `swapoff` (its failure
/// ignored), then the steps of `create_swapfile`.
pub fn resize_swapfile(new_size_gb: u64) -> (p: Plan)
    requires
        new_size_gb <= u64::MAX / 1024,
    ensures
        p@ == (PlanView {
            steps: seq![may(on_swapfile("swapoff"@))] + fill_steps(new_size_gb),
            finish: FinishView::LastOutput,
        }),
{
    let mut steps = Vec::new();
    add_step(&mut steps, helper_request("swapoff", one(SWAPFILE_PATH)), OnError::Ignore);
    push_fill_steps(&mut steps, new_size_gb);
    let p = Plan { steps, finish: Finish::LastOutput };
    assert(p@.steps =~= seq![may(on_swapfile("swapoff"@))] + fill_steps(new_size_gb));
    p
}

} // verus!
