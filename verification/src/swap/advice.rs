//! The decisions of the swap-control interface: the settings it recommends
//! for the amount of RAM, the advice it gives about the memory setup, what a
//! change of settings runs, and when it warns before a change.
use vstd::prelude::*;
use crate::swap::ram_info::{DimmInfo, DimmView};
use crate::swap::types::ZswapConfig;
use crate::text::{
    chars_of, dec_string, eq_str, lines, lines_range, parse_u64, parse_u64_range, push_dec,
    push_str, ranges_view, ranges_within, string_of, tokens, tokens_range, trim_end_set,
};

verus! {

/// One GiB in bytes.
pub const GIB: u64 = 1073741824;

/// One MiB in bytes.
pub const MIB: u64 = 1048576;

/// The RAM assumed when `/proc/meminfo` gives none: 32 GiB.
pub const DEFAULT_TOTAL_RAM: u64 = 34359738368;

/// How long the interface waits before asking `dmidecode` again, in
/// nanoseconds (30 seconds).
pub const DMIDECODE_RETRY_NS: u64 = 30000000000;

// ─── Recommendations ────────────────────────────────────────────────────────

/// The swappiness recommended for `total_ram` bytes of RAM: 10 from 16 GiB,
/// 30 from 8 GiB, 60 below.
pub open spec fn swappiness_for(total_ram: u64) -> u8 {
    if total_ram >= 16 * GIB {
        10
    } else if total_ram >= 8 * GIB {
        30
    } else {
        60
    }
}

/// The recommended swappiness for the machine's RAM.
pub fn recommended_swappiness(total_ram: u64) -> (s: u8)
    ensures
        s == swappiness_for(total_ram),
{
    if total_ram >= 16 * GIB {
        10
    } else if total_ram >= 8 * GIB {
        30
    } else {
        60
    }
}

/// The zswap pool size and accept threshold (both percentages) recommended
/// for `total_ram` bytes of RAM.
pub open spec fn zswap_settings_for(total_ram: u64) -> (u8, u8) {
    if total_ram <= 4 * GIB {
        (50, 70)
    } else if total_ram <= 8 * GIB {
        (30, 80)
    } else if total_ram <= 16 * GIB {
        (25, 85)
    } else if total_ram <= 64 * GIB {
        (20, 90)
    } else {
        (10, 90)
    }
}

/// Recommends the zswap pool percentage and accept threshold for the
/// machine's RAM (in bytes): a bigger pool and lower threshold for less RAM.
pub fn zswap_recommend(total_ram: u64) -> (r: (u8, u8))
    ensures
        r == zswap_settings_for(total_ram),
{
    if total_ram <= 4 * GIB {
        (50, 70)
    } else if total_ram <= 8 * GIB {
        (30, 80)
    } else if total_ram <= 16 * GIB {
        (25, 85)
    } else if total_ram <= 64 * GIB {
        (20, 90)
    } else {
        (10, 90)
    }
}

/// The one piece of advice that the overview shows.
#[derive(Debug, Clone, Copy, PartialEq, Eq, Structural)]
pub enum Recommendation {
    /// No disk swap is active.
    EnableDiskSwap,
    /// Disk swap is active but there is no zram device.
    CreateZram,
    /// Disk swap and zram are there but zswap is off.
    EnableZswap,
    /// All three tiers are in place.
    Optimal,
}

/// The advice for a memory setup, the most pressing first.
pub open spec fn recommendation_for(swap_active: bool, has_zram: bool, zswap_on: bool) -> Recommendation {
    if !swap_active {
        Recommendation::EnableDiskSwap
    } else if !has_zram {
        Recommendation::CreateZram
    } else if !zswap_on {
        Recommendation::EnableZswap
    } else {
        Recommendation::Optimal
    }
}

/// The advice for the memory setup.
pub fn recommendation(swap_active: bool, has_zram: bool, zswap_on: bool) -> (r: Recommendation)
    ensures
        r == recommendation_for(swap_active, has_zram, zswap_on),
{
    if !swap_active {
        Recommendation::EnableDiskSwap
    } else if !has_zram {
        Recommendation::CreateZram
    } else if !zswap_on {
        Recommendation::EnableZswap
    } else {
        Recommendation::Optimal
    }
}

/// The title and message of a piece of advice.
pub open spec fn recommendation_words(r: Recommendation) -> (Seq<char>, Seq<char>) {
    match r {
        Recommendation::EnableDiskSwap => (
            "No disk swap detected"@,
            "When RAM is full the kernel may kill applications. Enable disk swap for a reliable safety net."@,
        ),
        Recommendation::CreateZram => (
            "No Zram device detected"@,
            "Zram compresses swap pages in RAM — it's 10× faster than disk swap and dramatically reduces I/O. Create a Zram device for snappier performance under memory pressure."@,
        ),
        Recommendation::EnableZswap => (
            "Zswap is not enabled"@,
            "Zswap adds a compressed RAM write-back cache between Zram and disk swap, preventing the system from freezing when swap is finally needed. Enable it for a smoother experience."@,
        ),
        Recommendation::Optimal => (
            "Optimal memory configuration"@,
            "Zram → Zswap → Disk Swap — your three-tier memory defense is fully armed. Maximum performance and safety."@,
        ),
    }
}

impl Recommendation {
    /// The title and the message that the overview shows for this advice.
    pub fn text(&self) -> (t: (&'static str, &'static str))
        ensures
            (t.0@, t.1@) == recommendation_words(*self),
    {
        match self {
            Recommendation::EnableDiskSwap => (
                "No disk swap detected",
                "When RAM is full the kernel may kill applications. Enable disk swap for a reliable safety net.",
            ),
            Recommendation::CreateZram => (
                "No Zram device detected",
                "Zram compresses swap pages in RAM — it's 10× faster than disk swap and dramatically reduces I/O. Create a Zram device for snappier performance under memory pressure.",
            ),
            Recommendation::EnableZswap => (
                "Zswap is not enabled",
                "Zswap adds a compressed RAM write-back cache between Zram and disk swap, preventing the system from freezing when swap is finally needed. Enable it for a smoother experience.",
            ),
            Recommendation::Optimal => (
                "Optimal memory configuration",
                "Zram → Zswap → Disk Swap — your three-tier memory defense is fully armed. Maximum performance and safety.",
            ),
        }
    }
}

/// The default and the largest size, in MiB, offered for a new zram device:
/// 37.5 % of the RAM, and all of it.
pub open spec fn zram_sizes_for(total_ram: u64) -> (u64, u64) {
    ((total_ram * 6 / 16 / MIB as int) as u64, (total_ram / MIB) as u64)
}

/// The sizes offered for a new zram device, for `total_ram` bytes of RAM.
pub fn zram_size_defaults(total_ram: u64) -> (r: (u64, u64))
    requires
        total_ram * 6 <= u64::MAX,
    ensures
        r == zram_sizes_for(total_ram),
{
    (total_ram * 6 / 16 / MIB, total_ram / MIB)
}

// ─── Memory overview ────────────────────────────────────────────────────────

/// How the RAM is used, in bytes, from `/proc/meminfo`.
#[derive(Debug, Clone, Copy, Default, PartialEq, Eq, Structural)]
pub struct MemInfo {
    pub total: u64,
    pub used: u64,
    pub buffers: u64,
    pub cached: u64,
    pub free: u64,
}

pub open spec fn zero_meminfo() -> MemInfo {
    MemInfo { total: 0, used: 0, buffers: 0, cached: 0, free: 0 }
}

pub open spec fn colon() -> Seq<char> {
    seq![':']
}

/// The number of a `/proc/meminfo` line in KiB (0 if it is not a number).
pub open spec fn line_kib(p: Seq<Seq<char>>) -> u64 {
    match parse_u64(p[1]) {
        Some(n) => n,
        None => 0,
    }
}

/// What a line of `/proc/meminfo` sets: `MemTotal`, `MemFree`, `Buffers` or
/// `Cached`, in bytes.
pub open spec fn meminfo_line(m: MemInfo, line: Seq<char>) -> MemInfo {
    let p = tokens(line);
    if p.len() < 2 {
        m
    } else {
        let bytes = (line_kib(p) * 1024) as u64;
        let key = trim_end_set(p[0], colon());
        if key == "MemTotal"@ {
            MemInfo { total: bytes, ..m }
        } else if key == "MemFree"@ {
            MemInfo { free: bytes, ..m }
        } else if key == "Buffers"@ {
            MemInfo { buffers: bytes, ..m }
        } else if key == "Cached"@ {
            MemInfo { cached: bytes, ..m }
        } else {
            m
        }
    }
}

pub open spec fn meminfo_run(ls: Seq<Seq<char>>) -> MemInfo
    decreases ls.len(),
{
    if ls.len() == 0 {
        zero_meminfo()
    } else {
        meminfo_line(meminfo_run(ls.drop_last()), ls.last())
    }
}

/// Each number of `/proc/meminfo` fits in bytes in a `u64`.
pub open spec fn meminfo_fits(ls: Seq<Seq<char>>) -> bool {
    forall|i: int|
        0 <= i < ls.len() ==> (#[trigger] tokens(ls[i])).len() >= 2 ==> line_kib(tokens(ls[i]))
            <= u64::MAX / 1024
}

/// The memory overview: the used memory is what is neither free, nor
/// buffers, nor cache (0 if they add up to more than the total).
pub open spec fn meminfo_of(content: Option<Seq<char>>) -> MemInfo {
    match content {
        Some(c) => {
            let m = meminfo_run(lines(c));
            let other = m.free + m.buffers + m.cached;
            MemInfo {
                used: if m.total >= other {
                    (m.total - other) as u64
                } else {
                    0
                },
                ..m
            }
        },
        None => zero_meminfo(),
    }
}

/// The line `v[lo..hi]` of `/proc/meminfo` applied to `m`.
fn meminfo_line_exec(m: MemInfo, v: &Vec<char>, lo: usize, hi: usize) -> (r: MemInfo)
    requires
        lo <= hi <= v.len(),
        tokens(v@.subrange(lo as int, hi as int)).len() >= 2 ==> line_kib(
            tokens(v@.subrange(lo as int, hi as int)),
        ) <= u64::MAX / 1024,
    ensures
        r == meminfo_line(m, v@.subrange(lo as int, hi as int)),
{
    let t = tokens_range(v, lo, hi);
    let ghost p = ranges_view(v@, t@);
    if t.len() < 2 {
        return m;
    }
    let (a0, b0) = t[0];
    let (a1, b1) = t[1];
    assert(p[0] == v@.subrange(a0 as int, b0 as int));
    assert(p[1] == v@.subrange(a1 as int, b1 as int));
    let kib: u64 = match parse_u64_range(v, a1, b1) {
        Some(n) => n,
        None => 0,
    };
    let bytes = kib * 1024;
    let mut e = b0;
    while e > a0 && v[e - 1] == ':'
        invariant
            a0 <= e <= b0,
            b0 <= v.len(),
            trim_end_set(v@.subrange(a0 as int, b0 as int), colon()) == trim_end_set(
                v@.subrange(a0 as int, e as int),
                colon(),
            ),
        decreases e - a0,
    {
        assert(v@.subrange(a0 as int, e as int).drop_last() =~= v@.subrange(a0 as int, e - 1));
        assert(colon().contains(v@[e - 1])) by {
            assert(colon()[0] == ':');
        }
        e -= 1;
    }
    proof {
        let s = v@.subrange(a0 as int, e as int);
        if s.len() > 0 {
            assert(s.last() == v@[e - 1]);
            if colon().contains(s.last()) {
                let j = choose|j: int| 0 <= j < colon().len() && colon()[j] == s.last();
                assert(colon()[j] == ':');
            }
        }
        assert(trim_end_set(s, colon()) == s);
    }
    if eq_str(v, a0, e, "MemTotal") {
        MemInfo { total: bytes, ..m }
    } else if eq_str(v, a0, e, "MemFree") {
        MemInfo { free: bytes, ..m }
    } else if eq_str(v, a0, e, "Buffers") {
        MemInfo { buffers: bytes, ..m }
    } else if eq_str(v, a0, e, "Cached") {
        MemInfo { cached: bytes, ..m }
    } else {
        m
    }
}

/// The lines `ls` of `v` of `/proc/meminfo` applied in order.
fn meminfo_run_exec(v: &Vec<char>, ls: &Vec<(usize, usize)>) -> (m: MemInfo)
    requires
        ranges_within(ls@, 0, v@.len() as int),
        meminfo_fits(ranges_view(v@, ls@)),
    ensures
        m == meminfo_run(ranges_view(v@, ls@)),
{
    let ghost all = ranges_view(v@, ls@);
    let mut m = MemInfo { total: 0, used: 0, buffers: 0, cached: 0, free: 0 };
    let mut i: usize = 0;
    assert(all.take(0) =~= Seq::<Seq<char>>::empty());
    while i < ls.len()
        invariant
            i <= ls.len(),
            all == ranges_view(v@, ls@),
            meminfo_fits(all),
            ranges_within(ls@, 0, v@.len() as int),
            m == meminfo_run(all.take(i as int)),
        decreases ls.len() - i,
    {
        let (lo, hi) = ls[i];
        assert(all.take(i + 1).drop_last() =~= all.take(i as int));
        assert(all.take(i + 1).last() == v@.subrange(lo as int, hi as int));
        assert(all[i as int] == v@.subrange(lo as int, hi as int));
        m = meminfo_line_exec(m, v, lo, hi);
        i += 1;
    }
    assert(all.take(ls.len() as int) =~= all);
    m
}

/// How the RAM is used, from the contents of `/proc/meminfo` (`None` where
/// it could not be read: all zero).
pub fn read_meminfo(content: &Option<String>) -> (m: MemInfo)
    requires
        content matches Some(c) ==> meminfo_fits(lines(c@)),
        content matches Some(c) ==> meminfo_run(lines(c@)).free + meminfo_run(lines(c@)).buffers
            + meminfo_run(lines(c@)).cached <= u64::MAX,
    ensures
        m == meminfo_of(
            match content {
                Some(c) => Some(c@),
                None => None,
            },
        ),
{
    let c = match content {
        Some(c) => c,
        None => {
            return MemInfo { total: 0, used: 0, buffers: 0, cached: 0, free: 0 };
        },
    };
    let v = chars_of(c.as_str());
    let ls = lines_range(&v, 0, v.len());
    assert(v@.subrange(0, v@.len() as int) =~= v@);
    let m = meminfo_run_exec(&v, &ls);
    let other = m.free + m.buffers + m.cached;
    let used = if m.total >= other {
        m.total - other
    } else {
        0
    };
    MemInfo { used, ..m }
}

/// The populated modules, as the overview sums them up: how many there are
/// and the size of the first, written `<count>×<size>GB`.
pub open spec fn populated(dimms: Seq<DimmView>) -> Seq<DimmView> {
    dimms.filter(|d: DimmView| d.size_gb > 0)
}

pub open spec fn dimm_label_of(dimms: Seq<DimmView>) -> Option<Seq<char>> {
    let pop = populated(dimms);
    if pop.len() == 0 {
        None
    } else {
        Some(dec_string(pop.len()) + "×"@ + dec_string(pop[0].size_gb as nat) + "GB"@)
    }
}

/// The summary of the populated modules; none when no module has a size
/// (when `dmidecode` could not run).
pub fn dimm_label(dimms: &Vec<DimmInfo>) -> (r: Option<String>)
    ensures
        match r {
            Some(s) => dimm_label_of(dimms@.map_values(|d: DimmInfo| d@)) == Some(s@),
            None => dimm_label_of(dimms@.map_values(|d: DimmInfo| d@)) is None,
        },
{
    let ghost dv = dimms@.map_values(|d: DimmInfo| d@);
    let mut count: usize = 0;
    let mut first: u32 = 0;
    let mut i: usize = 0;
    assert(dv.take(0) =~= Seq::<DimmView>::empty());
    proof {
        reveal(Seq::<DimmView>::filter);
        assert(populated(dv.take(0)) =~= Seq::<DimmView>::empty());
    }
    while i < dimms.len()
        invariant
            i <= dimms.len(),
            dv == dimms@.map_values(|d: DimmInfo| d@),
            count == populated(dv.take(i as int)).len(),
            count <= i,
            count > 0 ==> first == populated(dv.take(i as int))[0].size_gb,
        decreases dimms.len() - i,
    {
        proof {
            assert(dv.take(i + 1).drop_last() =~= dv.take(i as int));
            assert(dv.take(i + 1) =~= dv.take(i as int).push(dv[i as int]));
            dv.take(i as int).lemma_filter_push(dv[i as int], |d: DimmView| d.size_gb > 0);
        }
        if dimms[i].size_gb > 0 {
            if count == 0 {
                first = dimms[i].size_gb;
            }
            count += 1;
        }
        i += 1;
    }
    assert(dv.take(dimms.len() as int) =~= dv);
    if count == 0 {
        None
    } else {
        let mut out: Vec<char> = Vec::new();
        push_dec(&mut out, count as u64);
        push_str(&mut out, "×");
        push_dec(&mut out, first as u64);
        push_str(&mut out, "GB");
        Some(string_of(&out))
    }
}

/// Whether to ask `dmidecode` again at `now_ns`, after asking at `last_ns`:
/// the first time, or once more than 30 seconds have passed (a time before
/// the last one counts as none passed).
pub fn should_retry_dmidecode(last_ns: Option<u64>, now_ns: u64) -> (b: bool)
    ensures
        b == match last_ns {
            Some(t) => t <= now_ns && now_ns - t > DMIDECODE_RETRY_NS,
            None => true,
        },
{
    match last_ns {
        Some(t) => t <= now_ns && now_ns - t > DMIDECODE_RETRY_NS,
        None => true,
    }
}

// ─── Changing the swap settings ─────────────────────────────────────────────

/// The settings of the swap page.
#[derive(Debug, Clone)]
pub struct SwapSettings {
    pub swappiness: u8,
    pub size_gb: u64,
    pub compressor: String,
    pub pool: u8,
    pub threshold: u8,
    pub shrinker: bool,
}

pub struct SwapSettingsView {
    pub swappiness: u8,
    pub size_gb: u64,
    pub compressor: Seq<char>,
    pub pool: u8,
    pub threshold: u8,
    pub shrinker: bool,
}

impl View for SwapSettings {
    type V = SwapSettingsView;

    open spec fn view(&self) -> SwapSettingsView {
        SwapSettingsView {
            swappiness: self.swappiness,
            size_gb: self.size_gb,
            compressor: self.compressor@,
            pool: self.pool,
            threshold: self.threshold,
            shrinker: self.shrinker,
        }
    }
}

/// Whether the settings differ from those read from the system.
pub fn settings_changed(current: &SwapSettings, orig: &SwapSettings) -> (b: bool)
    ensures
        b == (current@ != orig@),
{
    let same = current.swappiness == orig.swappiness && current.size_gb == orig.size_gb
        && crate::text::eq_strings(&current.compressor, &orig.compressor) && current.pool
        == orig.pool && current.threshold == orig.threshold && current.shrinker == orig.shrinker;
    proof {
        if same {
            assert(current@ == orig@);
        }
    }
    !same
}

/// One change that applying the settings makes.
#[derive(Debug, Clone)]
pub enum SwapOp {
    Swappiness(u8),
    Resize(u64),
    Compressor(String),
    Pool(u8),
    Threshold(u8),
    Shrinker(bool),
}

pub enum SwapOpView {
    Swappiness(u8),
    Resize(u64),
    Compressor(Seq<char>),
    Pool(u8),
    Threshold(u8),
    Shrinker(bool),
}

impl View for SwapOp {
    type V = SwapOpView;

    open spec fn view(&self) -> SwapOpView {
        match self {
            SwapOp::Swappiness(v) => SwapOpView::Swappiness(*v),
            SwapOp::Resize(v) => SwapOpView::Resize(*v),
            SwapOp::Compressor(c) => SwapOpView::Compressor(c@),
            SwapOp::Pool(v) => SwapOpView::Pool(*v),
            SwapOp::Threshold(v) => SwapOpView::Threshold(*v),
            SwapOp::Shrinker(v) => SwapOpView::Shrinker(*v),
        }
    }
}

/// What applying the swap page runs, in order: the swappiness and the swap
/// file size always, and each zswap setting that changed.
pub open spec fn swap_apply_ops(current: SwapSettingsView, orig: SwapSettingsView) -> Seq<SwapOpView> {
    seq![SwapOpView::Swappiness(current.swappiness), SwapOpView::Resize(current.size_gb)] + (
    if current.compressor != orig.compressor {
        seq![SwapOpView::Compressor(current.compressor)]
    } else {
        Seq::empty()
    }) + (if current.pool != orig.pool {
        seq![SwapOpView::Pool(current.pool)]
    } else {
        Seq::empty()
    }) + (if current.threshold != orig.threshold {
        seq![SwapOpView::Threshold(current.threshold)]
    } else {
        Seq::empty()
    }) + (if current.shrinker != orig.shrinker {
        seq![SwapOpView::Shrinker(current.shrinker)]
    } else {
        Seq::empty()
    })
}

/// The changes that applying the swap page makes.
pub fn apply_ops(current: &SwapSettings, orig: &SwapSettings) -> (r: Vec<SwapOp>)
    ensures
        r@.map_values(|o: SwapOp| o@) == swap_apply_ops(current@, orig@),
{
    let mut r: Vec<SwapOp> = Vec::new();
    r.push(SwapOp::Swappiness(current.swappiness));
    r.push(SwapOp::Resize(current.size_gb));
    let ghost base = r@.map_values(|o: SwapOp| o@);
    assert(base =~= seq![SwapOpView::Swappiness(current.swappiness), SwapOpView::Resize(current.size_gb)]);
    if !crate::text::eq_strings(&current.compressor, &orig.compressor) {
        let ghost b = r@.map_values(|o: SwapOp| o@);
        r.push(SwapOp::Compressor(current.compressor.clone()));
        assert(r@.map_values(|o: SwapOp| o@) =~= b.push(SwapOpView::Compressor(current.compressor@)));
    }
    let ghost a1 = r@.map_values(|o: SwapOp| o@);
    if current.pool != orig.pool {
        r.push(SwapOp::Pool(current.pool));
        assert(r@.map_values(|o: SwapOp| o@) =~= a1.push(SwapOpView::Pool(current.pool)));
    }
    let ghost a2 = r@.map_values(|o: SwapOp| o@);
    if current.threshold != orig.threshold {
        r.push(SwapOp::Threshold(current.threshold));
        assert(r@.map_values(|o: SwapOp| o@) =~= a2.push(SwapOpView::Threshold(current.threshold)));
    }
    let ghost a3 = r@.map_values(|o: SwapOp| o@);
    if current.shrinker != orig.shrinker {
        r.push(SwapOp::Shrinker(current.shrinker));
        assert(r@.map_values(|o: SwapOp| o@) =~= a3.push(SwapOpView::Shrinker(current.shrinker)));
    }
    assert(r@.map_values(|o: SwapOp| o@) =~= swap_apply_ops(current@, orig@));
    r
}

/// Whether the values of the zswap page differ from the configuration read
/// from the system. The on/off switch acts at once and is not compared.
pub fn zswap_changed(current: &ZswapConfig, orig: &ZswapConfig) -> (b: bool)
    ensures
        b == !(current.compressor@ == orig.compressor@ && current.max_pool_percent
            == orig.max_pool_percent && current.accept_threshold_percent
            == orig.accept_threshold_percent && current.shrinker_enabled == orig.shrinker_enabled),
{
    !(crate::text::eq_strings(&current.compressor, &orig.compressor) && current.max_pool_percent
        == orig.max_pool_percent && current.accept_threshold_percent
        == orig.accept_threshold_percent && current.shrinker_enabled == orig.shrinker_enabled)
}

/// What applying the zswap page runs, in order: every setting, changed or not.
pub open spec fn zswap_apply_ops_spec(c: Seq<char>, pool: u8, threshold: u8, shrinker: bool) -> Seq<
    SwapOpView,
> {
    seq![
        SwapOpView::Compressor(c),
        SwapOpView::Pool(pool),
        SwapOpView::Threshold(threshold),
        SwapOpView::Shrinker(shrinker),
    ]
}

/// The changes that applying the zswap page makes.
pub fn zswap_apply_ops(current: &ZswapConfig) -> (r: Vec<SwapOp>)
    ensures
        r@.map_values(|o: SwapOp| o@) == zswap_apply_ops_spec(
            current.compressor@,
            current.max_pool_percent,
            current.accept_threshold_percent,
            current.shrinker_enabled,
        ),
{
    let r = vec![
        SwapOp::Compressor(current.compressor.clone()),
        SwapOp::Pool(current.max_pool_percent),
        SwapOp::Threshold(current.accept_threshold_percent),
        SwapOp::Shrinker(current.shrinker_enabled),
    ];
    assert(r@.map_values(|o: SwapOp| o@) =~= zswap_apply_ops_spec(
        current.compressor@,
        current.max_pool_percent,
        current.accept_threshold_percent,
        current.shrinker_enabled,
    ));
    r
}

/// The name under which a failed change is reported.
pub open spec fn op_label_of(o: SwapOpView) -> Seq<char> {
    match o {
        SwapOpView::Swappiness(_) => "Swappiness"@,
        SwapOpView::Resize(_) => "Resize"@,
        SwapOpView::Compressor(_) => "Compressor"@,
        SwapOpView::Pool(_) => "Pool"@,
        SwapOpView::Threshold(_) => "Threshold"@,
        SwapOpView::Shrinker(_) => "Shrinker"@,
    }
}

impl SwapOp {
    /// The name under which its failure is reported.
    pub fn label(&self) -> (s: &'static str)
        ensures
            s@ == op_label_of(self@),
    {
        match self {
            SwapOp::Swappiness(_) => "Swappiness",
            SwapOp::Resize(_) => "Resize",
            SwapOp::Compressor(_) => "Compressor",
            SwapOp::Pool(_) => "Pool",
            SwapOp::Threshold(_) => "Threshold",
            SwapOp::Shrinker(_) => "Shrinker",
        }
    }
}

/// The failures among labelled results, each as `<label>: <error>`, one per
/// line.
pub open spec fn failure_lines(rs: Seq<(Seq<char>, Result<Seq<char>, Seq<char>>)>) -> Seq<Seq<char>>
    decreases rs.len(),
{
    if rs.len() == 0 {
        Seq::empty()
    } else {
        let rest = failure_lines(rs.drop_last());
        match rs.last().1 {
            Err(e) => rest.push(rs.last().0 + ": "@ + e),
            Ok(_) => rest,
        }
    }
}

/// The outcome of a batch of changes: success when none failed, otherwise
/// the failures joined by newlines.
pub open spec fn batch_result(rs: Seq<(Seq<char>, Result<Seq<char>, Seq<char>>)>) -> Result<
    (),
    Seq<char>,
> {
    if failure_lines(rs).len() == 0 {
        Ok(())
    } else {
        Err(crate::swap::zswap::join(failure_lines(rs), "\n"@))
    }
}

pub open spec fn labelled_view(rs: Seq<(String, Result<String, String>)>) -> Seq<
    (Seq<char>, Result<Seq<char>, Seq<char>>),
> {
    rs.map_values(|p: (String, Result<String, String>)| (p.0@, crate::swap::exec::result_view(p.1)))
}

/// Combines the results of a batch of changes, each with its label.
pub fn batch_outcome(results: &Vec<(String, Result<String, String>)>) -> (r: Result<(), String>)
    ensures
        match r {
            Ok(()) => batch_result(labelled_view(results@)) == Ok::<(), Seq<char>>(()),
            Err(e) => batch_result(labelled_view(results@)) == Err::<(), Seq<char>>(e@),
        },
{
    let ghost rv = labelled_view(results@);
    let mut failures: Vec<String> = Vec::new();
    let mut i: usize = 0;
    assert(rv.take(0) =~= Seq::<(Seq<char>, Result<Seq<char>, Seq<char>>)>::empty());
    while i < results.len()
        invariant
            i <= results.len(),
            rv == labelled_view(results@),
            crate::text::strings_view(failures@) == failure_lines(rv.take(i as int)),
        decreases results.len() - i,
    {
        assert(rv.take(i + 1).drop_last() =~= rv.take(i as int));
        assert(rv.take(i + 1).last() == rv[i as int]);
        let (label, res) = &results[i];
        match res {
            Err(e) => {
                let ghost before = failures@;
                let mut line = chars_of(label.as_str());
                push_str(&mut line, ": ");
                crate::text::push_string(&mut line, e);
                failures.push(string_of(&line));
                assert(crate::text::strings_view(failures@) =~= crate::text::strings_view(before).push(
                    label@ + ": "@ + e@,
                ));
            },
            Ok(_) => {},
        }
        i += 1;
    }
    assert(rv.take(results.len() as int) =~= rv);
    if failures.len() == 0 {
        Ok(())
    } else {
        Err(crate::swap::zswap::join_strings(&failures, "\n"))
    }
}

/// What switching the swap on or off does.
#[derive(Debug, Clone, Copy, PartialEq, Eq, Structural)]
pub enum SwapToggle {
    /// The swap is already in the asked state.
    Nothing,
    /// Enable the swap file.
    Enable,
    /// Disable the swap file.
    Disable,
    /// Disabling would break hibernation: ask first, then disable.
    ConfirmDisable,
}

/// The decision when the user asks for the swap to be `enable`d or not.
pub open spec fn toggle_for(enable: bool, is_active: bool, hibernation_configured: bool) -> SwapToggle {
    if enable == is_active {
        SwapToggle::Nothing
    } else if is_active {
        if hibernation_configured {
            SwapToggle::ConfirmDisable
        } else {
            SwapToggle::Disable
        }
    } else {
        SwapToggle::Enable
    }
}

/// What to do when the user switches the swap on or off.
pub fn toggle_swap_decision(enable: bool, is_active: bool, hibernation_configured: bool) -> (t:
    SwapToggle)
    ensures
        t == toggle_for(enable, is_active, hibernation_configured),
{
    if enable == is_active {
        SwapToggle::Nothing
    } else if is_active {
        if hibernation_configured {
            SwapToggle::ConfirmDisable
        } else {
            SwapToggle::Disable
        }
    } else {
        SwapToggle::Enable
    }
}

/// Whether applying a swap file of `size_gb` GiB needs the hibernation
/// warning: hibernation is configured and the swap would be smaller than the
/// RAM.
pub fn needs_hibernation_warning(hibernation_configured: bool, size_gb: u64, total_ram: u64) -> (b:
    bool)
    requires
        size_gb * GIB <= u64::MAX,
    ensures
        b == (hibernation_configured && size_gb * GIB < total_ram),
{
    hibernation_configured && size_gb * GIB < total_ram
}

/// The RAM in whole GiB, at least 1.
pub open spec fn ram_gib_at_least_one(total_ram: u64) -> nat {
    if total_ram / GIB >= 1 {
        (total_ram / GIB) as nat
    } else {
        1
    }
}

/// The bounds of the swap file size slider, in GiB, as
/// `(smallest, recommended, largest)`: the smallest is the RAM in GiB (at
/// least 1) plus 1 when hibernation is configured, else 1; the recommended
/// is the RAM in GiB, at least 1; the largest is twice the RAM in GiB, at
/// least 64.
pub fn swap_size_bounds(total_ram: u64, hibernation_configured: bool) -> (r: (u64, u64, u64))
    ensures
        r.0 == (if hibernation_configured {
            ram_gib_at_least_one(total_ram) + 1
        } else {
            1
        }),
        r.1 == ram_gib_at_least_one(total_ram),
        r.2 == (if 2 * (total_ram / GIB) >= 64 {
            2 * (total_ram / GIB)
        } else {
            64
        }),
{
    let g = total_ram / GIB;
    assert(g <= 17179869183) by (nonlinear_arith)
        requires
            g == total_ram / GIB,
            GIB == 1073741824,
    ;
    let rec = if g >= 1 {
        g
    } else {
        1
    };
    let largest = if 2 * g >= 64 {
        2 * g
    } else {
        64
    };
    let smallest = if hibernation_configured {
        rec + 1
    } else {
        1
    };
    (smallest, rec, largest)
}

} // verus!
