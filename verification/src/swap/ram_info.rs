//! Hardware RAM information: the total from `/proc/meminfo` and the memory
//! modules that `dmidecode -t memory` describes (run through the helper).
use vstd::prelude::*;
use crate::swap::exec::{helper, helper_request, Request};
use crate::swap::zram::opt_view;
use crate::text::{
    chars_of, contains, eq_str, find_exec, lines, lines_range, parse_u32, parse_u32_range,
    parse_u64, parse_u64_range, push_range, ranges_view, ranges_within, starts_with,
    starts_with_range, string_of, tokens, tokens_range, trim, trim_range,
};

verus! {

/// One installed memory module.
#[derive(Debug, Clone, Default)]
pub struct DimmInfo {
    pub locator: String,
    pub size_gb: u32,
    pub form_factor: String,
    pub speed_mts: u32,
    pub manufacturer: String,
    pub part_number: String,
}

/// What is known of the machine's RAM. The total is kept in KiB, as
/// `/proc/meminfo` gives it; `total_kb / 1048576` is the size in GiB.
#[derive(Debug, Clone, Default)]
pub struct RamInfo {
    pub total_kb: u64,
    pub ram_type: String,
    pub speed_mts: u32,
    pub manufacturer: String,
    pub dimms: Vec<DimmInfo>,
    pub error_correction: String,
}

pub struct DimmView {
    pub locator: Seq<char>,
    pub size_gb: u32,
    pub form_factor: Seq<char>,
    pub speed_mts: u32,
    pub manufacturer: Seq<char>,
    pub part_number: Seq<char>,
}

pub struct RamInfoView {
    pub total_kb: u64,
    pub ram_type: Seq<char>,
    pub speed_mts: u32,
    pub manufacturer: Seq<char>,
    pub dimms: Seq<DimmView>,
    pub error_correction: Seq<char>,
}

impl View for DimmInfo {
    type V = DimmView;

    open spec fn view(&self) -> DimmView {
        DimmView {
            locator: self.locator@,
            size_gb: self.size_gb,
            form_factor: self.form_factor@,
            speed_mts: self.speed_mts,
            manufacturer: self.manufacturer@,
            part_number: self.part_number@,
        }
    }
}

impl View for RamInfo {
    type V = RamInfoView;

    open spec fn view(&self) -> RamInfoView {
        RamInfoView {
            total_kb: self.total_kb,
            ram_type: self.ram_type@,
            speed_mts: self.speed_mts,
            manufacturer: self.manufacturer@,
            dimms: self.dimms@.map_values(|d: DimmInfo| d@),
            error_correction: self.error_correction@,
        }
    }
}

/// A module with nothing known of it yet.
pub open spec fn empty_dimm() -> DimmView {
    DimmView {
        locator: Seq::empty(),
        size_gb: 0,
        form_factor: Seq::empty(),
        speed_mts: 0,
        manufacturer: Seq::empty(),
        part_number: Seq::empty(),
    }
}

/// Nothing known of the RAM but its total.
pub open spec fn basic_info(total_kb: u64) -> RamInfoView {
    RamInfoView {
        total_kb,
        ram_type: Seq::empty(),
        speed_mts: 0,
        manufacturer: Seq::empty(),
        dimms: Seq::empty(),
        error_correction: Seq::empty(),
    }
}

/// `MemTotal` in KiB from the lines of `/proc/meminfo`: the number on the
/// first line that starts with `MemTotal:`, 0 if it is missing or not a number.
pub open spec fn mem_total_kb(ls: Seq<Seq<char>>) -> u64
    decreases ls.len(),
{
    if ls.len() == 0 {
        0
    } else if starts_with(ls[0], "MemTotal:"@) {
        if tokens(ls[0]).len() >= 2 {
            match parse_u64(tokens(ls[0])[1]) {
                Some(n) => n,
                None => 0,
            }
        } else {
            0
        }
    } else {
        mem_total_kb(ls.drop_first())
    }
}

/// The value after `key` on a trimmed line of `dmidecode`, trimmed; none when
/// it is empty or says `None`, `Unknown` or `<OUT OF SPEC>`.
pub open spec fn kv_value(line: Seq<char>, key: Seq<char>) -> Option<Seq<char>> {
    if starts_with(line, key) {
        let val = trim(line.skip(key.len() as int));
        if val.len() == 0 || val == "None"@ || val == "Unknown"@ || val == "<OUT OF SPEC>"@ {
            None
        } else {
            Some(val)
        }
    } else {
        None
    }
}

/// The number that a value starts with, 0 if it does not.
pub open spec fn first_number(s: Seq<char>) -> u32 {
    if tokens(s).len() > 0 {
        match parse_u32(tokens(s)[0]) {
            Some(n) => n,
            None => 0,
        }
    } else {
        0
    }
}

/// A module size in GB: the number, divided by 1024 where it is given in MB.
pub open spec fn size_to_gb(s: Seq<char>) -> u32 {
    if contains(s, "MB"@) {
        (first_number(s) / 1024) as u32
    } else {
        first_number(s)
    }
}

/// Where the scan of `dmidecode` output stands.
pub struct DmiScan {
    pub info: RamInfoView,
    pub current: Option<DimmView>,
    pub in_device: bool,
}

/// `info` with the module `d` added when it has a size.
pub open spec fn flush(info: RamInfoView, d: Option<DimmView>) -> RamInfoView {
    match d {
        Some(m) => if m.size_gb > 0 {
            RamInfoView { dimms: info.dimms.push(m), ..info }
        } else {
            info
        },
        None => info,
    }
}

/// What a line inside a `Memory Device` section tells of module `d` and of
/// the RAM `info`; the keys are looked at in this order.
pub open spec fn device_line(info: RamInfoView, d: DimmView, line: Seq<char>) -> (
    RamInfoView,
    DimmView,
) {
    let d1 = match kv_value(line, "Locator:"@) {
        Some(v) => DimmView { locator: v, ..d },
        None => d,
    };
    let d2 = match kv_value(line, "Size:"@) {
        Some(v) => if v != "No Module Installed"@ && v != "None"@ {
            DimmView { size_gb: size_to_gb(v), ..d1 }
        } else {
            d1
        },
        None => d1,
    };
    let i1 = match kv_value(line, "Type:"@) {
        Some(v) => if v != "Unknown"@ && info.ram_type.len() == 0 {
            RamInfoView { ram_type: v, ..info }
        } else {
            info
        },
        None => info,
    };
    let d3 = match kv_value(line, "Speed:"@) {
        Some(v) => DimmView { speed_mts: first_number(v), ..d2 },
        None => d2,
    };
    let i2 = match kv_value(line, "Speed:"@) {
        Some(v) => if i1.speed_mts == 0 {
            RamInfoView { speed_mts: d3.speed_mts, ..i1 }
        } else {
            i1
        },
        None => i1,
    };
    let d4 = match kv_value(line, "Manufacturer:"@) {
        Some(v) => if d3.manufacturer.len() == 0 {
            DimmView { manufacturer: v, ..d3 }
        } else {
            d3
        },
        None => d3,
    };
    let i3 = match kv_value(line, "Manufacturer:"@) {
        Some(v) => if i2.manufacturer.len() == 0 {
            RamInfoView { manufacturer: d4.manufacturer, ..i2 }
        } else {
            i2
        },
        None => i2,
    };
    let d5 = match kv_value(line, "Form Factor:"@) {
        Some(v) => DimmView { form_factor: v, ..d4 },
        None => d4,
    };
    let d6 = match kv_value(line, "Part Number:"@) {
        Some(v) => DimmView { part_number: v, ..d5 },
        None => d5,
    };
    let i4 = match kv_value(line, "Type Detail:"@) {
        Some(v) => if i3.ram_type.len() == 0 {
            RamInfoView { ram_type: v, ..i3 }
        } else {
            i3
        },
        None => i3,
    };
    (i4, d6)
}

/// One line of `dmidecode` output: a `Memory Device` or `Physical Memory
/// Array` header closes the module being read and opens the next section;
/// outside memory devices only the error correction is read.
pub open spec fn dmi_step(s: DmiScan, raw: Seq<char>) -> DmiScan {
    let line = trim(raw);
    if starts_with(line, "Memory Device"@) || starts_with(line, "Physical Memory Array"@) {
        let dev = starts_with(line, "Memory Device"@);
        DmiScan {
            info: flush(s.info, s.current),
            current: if dev {
                Some(empty_dimm())
            } else {
                None
            },
            in_device: dev,
        }
    } else if !s.in_device {
        match kv_value(line, "Error Correction Type:"@) {
            Some(v) => DmiScan { info: RamInfoView { error_correction: v, ..s.info }, ..s },
            None => s,
        }
    } else {
        match s.current {
            Some(d) => {
                let r = device_line(s.info, d, line);
                DmiScan { info: r.0, current: Some(r.1), in_device: s.in_device }
            },
            None => s,
        }
    }
}

/// The scan after the lines `ls`.
pub open spec fn dmi_run(s: DmiScan, ls: Seq<Seq<char>>) -> DmiScan
    decreases ls.len(),
{
    if ls.len() == 0 {
        s
    } else {
        dmi_step(dmi_run(s, ls.drop_last()), ls.last())
    }
}

/// `info` completed with what the `dmidecode` output `text` describes.
pub open spec fn dmi_parse(info: RamInfoView, text: Seq<char>) -> RamInfoView {
    let s = dmi_run(DmiScan { info, current: None, in_device: false }, lines(text));
    flush(s.info, s.current)
}

/// The scan state of the executable parser.
struct DmiState {
    info: RamInfo,
    current: Option<DimmInfo>,
    in_device: bool,
}

impl DmiState {
    spec fn view(&self) -> DmiScan {
        DmiScan {
            info: self.info@,
            current: match self.current {
                Some(d) => Some(d@),
                None => None,
            },
            in_device: self.in_device,
        }
    }
}

fn new_dimm() -> (d: DimmInfo)
    ensures
        d@ == empty_dimm(),
{
    DimmInfo {
        locator: String::new(),
        size_gb: 0,
        form_factor: String::new(),
        speed_mts: 0,
        manufacturer: String::new(),
        part_number: String::new(),
    }
}

/// Adds the module to `info` when it has a size.
fn flush_exec(info: &mut RamInfo, d: Option<DimmInfo>)
    ensures
        final(info)@ == flush(
            old(info)@,
            match d {
                Some(m) => Some(m@),
                None => None,
            },
        ),
{
    match d {
        Some(m) => {
            if m.size_gb > 0 {
                let ghost before = info.dimms@;
                let ghost mv = m@;
                info.dimms.push(m);
                assert(info.dimms@.map_values(|x: DimmInfo| x@) =~= before.map_values(
                    |x: DimmInfo| x@,
                ).push(mv));
            }
        },
        None => {},
    }
}

/// The value after `key` on the trimmed line `lv`.
fn kv(lv: &Vec<char>, key: &str) -> (r: Option<Vec<char>>)
    ensures
        match r {
            Some(x) => kv_value(lv@, key@) == Some(x@),
            None => kv_value(lv@, key@) is None,
        },
{
    let k = chars_of(key);
    assert(lv@.subrange(0, lv@.len() as int) =~= lv@);
    if !starts_with_range(lv, 0, lv.len(), &k) {
        return None;
    }
    let (a, b) = trim_range(lv, k.len(), lv.len());
    assert(lv@.skip(k@.len() as int) =~= lv@.subrange(k@.len() as int, lv@.len() as int));
    if a == b || eq_str(lv, a, b, "None") || eq_str(lv, a, b, "Unknown") || eq_str(
        lv,
        a,
        b,
        "<OUT OF SPEC>",
    ) {
        return None;
    }
    let mut x: Vec<char> = Vec::new();
    push_range(&mut x, lv, a, b);
    assert(x@ =~= lv@.subrange(a as int, b as int));
    Some(x)
}

fn first_number_exec(v: &Vec<char>) -> (n: u32)
    ensures
        n == first_number(v@),
{
    let t = tokens_range(v, 0, v.len());
    assert(v@.subrange(0, v@.len() as int) =~= v@);
    if t.len() > 0 {
        let (a, b) = t[0];
        assert(ranges_view(v@, t@)[0] == v@.subrange(a as int, b as int));
        match parse_u32_range(v, a, b) {
            Some(n) => n,
            None => 0,
        }
    } else {
        0
    }
}

fn size_to_gb_exec(v: &Vec<char>) -> (n: u32)
    ensures
        n == size_to_gb(v@),
{
    let mb = chars_of("MB");
    let n = first_number_exec(v);
    if find_exec(v, &mb).is_some() {
        n / 1024
    } else {
        n
    }
}

/// What a line inside a memory device section does to `info` and `d`.
fn device_line_exec(info: &mut RamInfo, d: &mut DimmInfo, line: &Vec<char>)
    ensures
        (final(info)@, final(d)@) == device_line(old(info)@, old(d)@, line@),
{
    match kv(line, "Locator:") {
        Some(x) => {
            d.locator = string_of(&x);
        },
        None => {},
    }
    match kv(line, "Size:") {
        Some(x) => {
            if !eq_str(&x, 0, x.len(), "No Module Installed") && !eq_str(&x, 0, x.len(), "None") {
                d.size_gb = size_to_gb_exec(&x);
            }
            assert(x@.subrange(0, x@.len() as int) =~= x@);
        },
        None => {},
    }
    match kv(line, "Type:") {
        Some(x) => {
            assert(x@.subrange(0, x@.len() as int) =~= x@);
            if !eq_str(&x, 0, x.len(), "Unknown") && info.ram_type.as_str().is_empty() {
                info.ram_type = string_of(&x);
            }
        },
        None => {},
    }
    match kv(line, "Speed:") {
        Some(x) => {
            d.speed_mts = first_number_exec(&x);
            if info.speed_mts == 0 {
                info.speed_mts = d.speed_mts;
            }
        },
        None => {},
    }
    match kv(line, "Manufacturer:") {
        Some(x) => {
            if d.manufacturer.as_str().is_empty() {
                d.manufacturer = string_of(&x);
            }
            if info.manufacturer.as_str().is_empty() {
                info.manufacturer = d.manufacturer.clone();
            }
        },
        None => {},
    }
    match kv(line, "Form Factor:") {
        Some(x) => {
            d.form_factor = string_of(&x);
        },
        None => {},
    }
    match kv(line, "Part Number:") {
        Some(x) => {
            d.part_number = string_of(&x);
        },
        None => {},
    }
    match kv(line, "Type Detail:") {
        Some(x) => {
            if info.ram_type.as_str().is_empty() {
                info.ram_type = string_of(&x);
            }
        },
        None => {},
    }
}

/// One line `v[lo..hi]` of `dmidecode` output.
fn dmi_step_exec(st: &mut DmiState, v: &Vec<char>, lo: usize, hi: usize)
    requires
        lo <= hi <= v.len(),
    ensures
        final(st).view() == dmi_step(old(st).view(), v@.subrange(lo as int, hi as int)),
{
    let (a, b) = trim_range(v, lo, hi);
    let mut line: Vec<char> = Vec::new();
    push_range(&mut line, v, a, b);
    assert(line@ =~= trim(v@.subrange(lo as int, hi as int)));
    assert(line@.subrange(0, line@.len() as int) =~= line@);
    let md = chars_of("Memory Device");
    let pma = chars_of("Physical Memory Array");
    let dev = starts_with_range(&line, 0, line.len(), &md);
    if dev || starts_with_range(&line, 0, line.len(), &pma) {
        let cur = st.current.take();
        flush_exec(&mut st.info, cur);
        st.current = if dev {
            Some(new_dimm())
        } else {
            None
        };
        st.in_device = dev;
        return;
    }
    if !st.in_device {
        match kv(&line, "Error Correction Type:") {
            Some(x) => {
                st.info.error_correction = string_of(&x);
            },
            None => {},
        }
        return;
    }
    match st.current.take() {
        Some(mut d) => {
            device_line_exec(&mut st.info, &mut d, &line);
            st.current = Some(d);
        },
        None => {},
    }
}

/// Runs the scan over the lines `ls` of `v`.
fn dmi_run_exec(st: &mut DmiState, v: &Vec<char>, ls: &Vec<(usize, usize)>)
    requires
        ranges_within(ls@, 0, v@.len() as int),
    ensures
        final(st).view() == dmi_run(old(st).view(), ranges_view(v@, ls@)),
{
    let ghost all = ranges_view(v@, ls@);
    let ghost start = st.view();
    let mut i: usize = 0;
    assert(all.take(0) =~= Seq::<Seq<char>>::empty());
    while i < ls.len()
        invariant
            i <= ls.len(),
            all == ranges_view(v@, ls@),
            ranges_within(ls@, 0, v@.len() as int),
            st.view() == dmi_run(start, all.take(i as int)),
        decreases ls.len() - i,
    {
        let (a, b) = ls[i];
        assert(all.take(i + 1).drop_last() =~= all.take(i as int));
        assert(all.take(i + 1).last() == v@.subrange(a as int, b as int));
        dmi_step_exec(st, v, a, b);
        i += 1;
    }
    assert(all.take(ls.len() as int) =~= all);
}

/// Completes `info` with the modules and properties that the output of
/// `dmidecode -t memory` describes.
pub fn parse_dmidecode(info: &mut RamInfo, text: &str)
    ensures
        final(info)@ == dmi_parse(old(info)@, text@),
{
    let v = chars_of(text);
    let ls = lines_range(&v, 0, v.len());
    assert(v@.subrange(0, v@.len() as int) =~= v@);
    let mut taken = RamInfo {
        total_kb: 0,
        ram_type: String::new(),
        speed_mts: 0,
        manufacturer: String::new(),
        dimms: Vec::new(),
        error_correction: String::new(),
    };
    std::mem::swap(&mut taken, info);
    let mut st = DmiState { info: taken, current: None, in_device: false };
    dmi_run_exec(&mut st, &v, &ls);
    let cur = st.current.take();
    flush_exec(&mut st.info, cur);
    *info = st.info;
}

/// `MemTotal` in KiB from the lines `v[ls]`.
fn mem_total_kb_exec(v: &Vec<char>) -> (n: u64)
    ensures
        n == mem_total_kb(lines(v@)),
{
    let ls = lines_range(v, 0, v.len());
    assert(v@.subrange(0, v@.len() as int) =~= v@);
    let ghost all = ranges_view(v@, ls@);
    let key = chars_of("MemTotal:");
    let mut i: usize = 0;
    assert(all.skip(0) =~= all);
    while i < ls.len()
        invariant
            i <= ls.len(),
            all == ranges_view(v@, ls@),
            all == lines(v@),
            key@ == "MemTotal:"@,
            ranges_within(ls@, 0, v@.len() as int),
            mem_total_kb(all) == mem_total_kb(all.skip(i as int)),
        decreases ls.len() - i,
    {
        let (a, b) = ls[i];
        let ghost rest = all.skip(i as int);
        assert(rest[0] == v@.subrange(a as int, b as int));
        assert(rest.drop_first() =~= all.skip(i + 1));
        if starts_with_range(v, a, b, &key) {
            let t = tokens_range(v, a, b);
            if t.len() >= 2 {
                let (t0, t1) = t[1];
                assert(ranges_view(v@, t@)[1] == v@.subrange(t0 as int, t1 as int));
                return match parse_u64_range(v, t0, t1) {
                    Some(n) => n,
                    None => 0,
                };
            }
            return 0;
        }
        i += 1;
    }
    assert(all.skip(i as int) =~= Seq::<Seq<char>>::empty());
    0
}

/// The RAM total from the contents of `/proc/meminfo` (`None` where it could
/// not be read: the total is then 0).
pub fn read_ram_basic(meminfo: &Option<String>) -> (r: RamInfo)
    ensures
        r@ == basic_info(
            match opt_view(*meminfo) {
                Some(c) => mem_total_kb(lines(c)),
                None => 0,
            },
        ),
{
    let total_kb = match meminfo {
        Some(c) => {
            let v = chars_of(c.as_str());
            mem_total_kb_exec(&v)
        },
        None => 0,
    };
    let r = RamInfo {
        total_kb,
        ram_type: String::new(),
        speed_mts: 0,
        manufacturer: String::new(),
        dimms: Vec::new(),
        error_correction: String::new(),
    };
    assert(r@.dimms =~= Seq::<DimmView>::empty());
    r
}

/// The helper run whose output describes the memory modules.
pub fn dmidecode_request() -> (r: Request)
    ensures
        r@ == helper("dmidecode"@, seq!["-t"@, "memory"@]),
{
    helper_request("dmidecode", crate::swap::exec::two("-t", "memory"))
}

/// All that is known of the RAM, from `/proc/meminfo` and the output of
/// `dmidecode -t memory` (`None` where the helper run failed: the basic
/// information is then all there is).
pub fn read_ram_info_full(meminfo: &Option<String>, dmidecode: &Option<String>) -> (r: RamInfo)
    ensures
        r@ == match opt_view(*dmidecode) {
            Some(t) => dmi_parse(
                basic_info(
                    match opt_view(*meminfo) {
                        Some(c) => mem_total_kb(lines(c)),
                        None => 0,
                    },
                ),
                t,
            ),
            None => basic_info(
                match opt_view(*meminfo) {
                    Some(c) => mem_total_kb(lines(c)),
                    None => 0,
                },
            ),
        },
{
    let mut info = read_ram_basic(meminfo);
    match dmidecode {
        Some(t) => parse_dmidecode(&mut info, t.as_str()),
        None => {},
    }
    info
}

/// The value after `key` on a trimmed line of `dmidecode`, trimmed; none
/// when the line does not start with `key` or the value is empty, `None`,
/// `Unknown` or `<OUT OF SPEC>`.
pub fn parse_kv(line: &str, key: &str) -> (r: Option<String>)
    ensures
        match r {
            Some(x) => kv_value(line@, key@) == Some(x@),
            None => kv_value(line@, key@) is None,
        },
{
    let v = chars_of(line);
    match kv(&v, key) {
        Some(x) => Some(string_of(&x)),
        None => None,
    }
}

/// A module size of `dmidecode` in GB: its number, divided by 1024 when it
/// is given in MB (0 when it does not start with a number).
pub fn parse_size_to_gb(s: &str) -> (n: u32)
    ensures
        n == size_to_gb(s@),
{
    let v = chars_of(s);
    size_to_gb_exec(&v)
}

} // verus!
