//! zswap: the compressed cache in front of swap, configured through the
//! module parameters under `/sys/module/zswap/parameters`.
use vstd::prelude::*;
use crate::swap::exec::{single, write_file, must, helper, FinishView, Plan, PlanView, Request};
use crate::swap::types::ZswapConfig;
use crate::text::{
    chars_of, contains, eq_str, dec_string, find_exec, int_error_message, int_error_text, owned,
    parse_unsigned_detailed, parse_unsigned_detailed_range, push_dec, push_str, push_string,
    string_of, strings_view, trim, trim_string,
};

verus! {

pub const ZSWAP_ENABLED: &'static str = "/sys/module/zswap/parameters/enabled";
pub const ZSWAP_COMPRESSOR: &'static str = "/sys/module/zswap/parameters/compressor";
pub const ZSWAP_MAX_POOL_PERCENT: &'static str = "/sys/module/zswap/parameters/max_pool_percent";
pub const ZSWAP_ACCEPT_THRESHOLD: &'static str = "/sys/module/zswap/parameters/accept_threshold_percent";
pub const ZSWAP_SHRINKER: &'static str = "/sys/module/zswap/parameters/shrinker_enabled";

/// Path of the kernel's list of crypto algorithms.
pub const PROC_CRYPTO: &'static str = "/proc/crypto";

/// A zswap configuration, as plain values.
pub struct ZswapConfigView {
    pub enabled: bool,
    pub compressor: Seq<char>,
    pub max_pool_percent: u8,
    pub accept_threshold_percent: u8,
    pub shrinker_enabled: bool,
}

impl View for ZswapConfig {
    type V = ZswapConfigView;

    open spec fn view(&self) -> ZswapConfigView {
        ZswapConfigView {
            enabled: self.enabled,
            compressor: self.compressor@,
            max_pool_percent: self.max_pool_percent,
            accept_threshold_percent: self.accept_threshold_percent,
            shrinker_enabled: self.shrinker_enabled,
        }
    }
}

/// The lower case of an ASCII letter; other characters unchanged.
pub open spec fn ascii_lower(c: char) -> char {
    if 'A' <= c && c <= 'Z' {
        ((c as u32) + 32) as char
    } else {
        c
    }
}

/// `str::eq_ignore_ascii_case`.
pub open spec fn eq_ignore_ascii_case(a: Seq<char>, b: Seq<char>) -> bool {
    a.len() == b.len() && forall|i: int| 0 <= i < a.len() ==> ascii_lower(#[trigger] a[i]) == ascii_lower(b[i])
}

pub fn ascii_lower_char(c: char) -> (r: char)
    ensures
        r == ascii_lower(c),
{
    if 'A' <= c && c <= 'Z' {
        ((c as u8) + 32) as char
    } else {
        c
    }
}

/// Whether `a` and `b` are equal up to ASCII case.
pub fn eq_ignore_ascii_case_exec(a: &Vec<char>, b: &str) -> (r: bool)
    ensures
        r == eq_ignore_ascii_case(a@, b@),
{
    let bv = chars_of(b);
    if a.len() != bv.len() {
        return false;
    }
    let mut i: usize = 0;
    while i < a.len()
        invariant
            i <= a.len(),
            a.len() == bv.len(),
            bv@ == b@,
            forall|k: int| 0 <= k < i ==> ascii_lower(#[trigger] a@[k]) == ascii_lower(bv@[k]),
        decreases a.len() - i,
    {
        if ascii_lower_char(a[i]) != ascii_lower_char(bv[i]) {
            return false;
        }
        i += 1;
    }
    true
}

/// The contents of a parameter file, trimmed, or why it could not be read.
pub open spec fn sysfs_string(path: Seq<char>, content: Result<Seq<char>, Seq<char>>) -> Result<
    Seq<char>,
    Seq<char>,
> {
    match content {
        Ok(c) => Ok(trim(c)),
        Err(e) => Err("Cannot read "@ + path + ": "@ + e),
    }
}

pub open spec fn string_result(r: Result<String, String>) -> Result<Seq<char>, Seq<char>> {
    match r {
        Ok(s) => Ok(s@),
        Err(e) => Err(e@),
    }
}

/// Reads a parameter file from its contents (or the error reading it gave).
pub fn read_sysfs_string(path: &str, content: Result<String, String>) -> (r: Result<String, String>)
    ensures
        string_result(r) == sysfs_string(path@, string_result(content)),
{
    match content {
        Ok(c) => Ok(trim_string(c.as_str())),
        Err(e) => {
            let mut m = chars_of("Cannot read ");
            push_str(&mut m, path);
            push_str(&mut m, ": ");
            push_string(&mut m, &e);
            Err(string_of(&m))
        },
    }
}

/// A boolean parameter: `1`, `Y` or `true` (in any ASCII case) is true.
pub open spec fn sysfs_bool(val: Seq<char>) -> bool {
    val == "1"@ || eq_ignore_ascii_case(val, "Y"@) || eq_ignore_ascii_case(val, "true"@)
}

/// Reads a boolean parameter.
pub fn read_sysfs_bool(path: &str, content: Result<String, String>) -> (r: Result<bool, String>)
    ensures
        sysfs_string(path@, string_result(content)) matches Ok(v) ==> r == Ok::<bool, String>(
            sysfs_bool(v),
        ),
        sysfs_string(path@, string_result(content)) matches Err(m) ==> r matches Err(e) && e@ == m,
{
    let val = read_sysfs_string(path, content)?;
    let v = chars_of(val.as_str());
    let one = chars_of("1");
    assert(v@.subrange(0, v@.len() as int) =~= v@);
    Ok(crate::text::eq_range(&v, 0, v.len(), &one) || eq_ignore_ascii_case_exec(&v, "Y")
        || eq_ignore_ascii_case_exec(&v, "true"))
}

/// A `u8` parameter, or why it is not one.
pub open spec fn sysfs_u8(path: Seq<char>, val: Seq<char>) -> Result<u8, Seq<char>> {
    match parse_unsigned_detailed(val, u8::MAX as nat) {
        Ok(n) => Ok(n as u8),
        Err(e) => Err("Cannot parse "@ + path + " as u8: "@ + int_error_text(e)),
    }
}

pub open spec fn u8_result(r: Result<u8, String>) -> Result<u8, Seq<char>> {
    match r {
        Ok(n) => Ok(n),
        Err(e) => Err(e@),
    }
}

/// Reads a `u8` parameter.
pub fn read_sysfs_u8(path: &str, content: Result<String, String>) -> (r: Result<u8, String>)
    ensures
        sysfs_string(path@, string_result(content)) matches Ok(v) ==> u8_result(r) == sysfs_u8(
            path@,
            v,
        ),
        sysfs_string(path@, string_result(content)) matches Err(m) ==> r matches Err(e) && e@ == m,
{
    let val = read_sysfs_string(path, content)?;
    let v = chars_of(val.as_str());
    assert(v@.subrange(0, v@.len() as int) =~= v@);
    match parse_unsigned_detailed_range(&v, 0, v.len(), 255) {
        Ok(n) => Ok(n as u8),
        Err(e) => {
            let mut m = chars_of("Cannot parse ");
            push_str(&mut m, path);
            push_str(&mut m, " as u8: ");
            let t = int_error_message(e);
            push_string(&mut m, &t);
            Err(string_of(&m))
        },
    }
}

/// The zswap configuration that the contents of its five parameter files
/// give (enabled, compressor, max pool percent, accept threshold, shrinker);
/// the first of them that fails is the error.
pub open spec fn zswap_config_of(
    enabled: Result<Seq<char>, Seq<char>>,
    compressor: Result<Seq<char>, Seq<char>>,
    pool: Result<Seq<char>, Seq<char>>,
    threshold: Result<Seq<char>, Seq<char>>,
    shrinker: Result<Seq<char>, Seq<char>>,
) -> Result<ZswapConfigView, Seq<char>> {
    match sysfs_string(ZSWAP_ENABLED@, enabled) {
        Err(e) => Err(e),
        Ok(en) => match sysfs_string(ZSWAP_COMPRESSOR@, compressor) {
            Err(e) => Err(e),
            Ok(comp) => match sysfs_string(ZSWAP_MAX_POOL_PERCENT@, pool) {
                Err(e) => Err(e),
                Ok(p) => match sysfs_u8(ZSWAP_MAX_POOL_PERCENT@, p) {
                    Err(e) => Err(e),
                    Ok(pn) => match sysfs_string(ZSWAP_ACCEPT_THRESHOLD@, threshold) {
                        Err(e) => Err(e),
                        Ok(t) => match sysfs_u8(ZSWAP_ACCEPT_THRESHOLD@, t) {
                            Err(e) => Err(e),
                            Ok(tn) => match sysfs_string(ZSWAP_SHRINKER@, shrinker) {
                                Err(e) => Err(e),
                                Ok(sh) => Ok(
                                    ZswapConfigView {
                                        enabled: sysfs_bool(en),
                                        compressor: comp,
                                        max_pool_percent: pn,
                                        accept_threshold_percent: tn,
                                        shrinker_enabled: sysfs_bool(sh),
                                    },
                                ),
                            },
                        },
                    },
                },
            },
        },
    }
}

pub open spec fn config_result(r: Result<ZswapConfig, String>) -> Result<ZswapConfigView, Seq<char>> {
    match r {
        Ok(c) => Ok(c@),
        Err(e) => Err(e@),
    }
}

/// Reads the zswap configuration from the contents of its parameter files.
pub fn read_zswap_config(
    enabled: Result<String, String>,
    compressor: Result<String, String>,
    pool: Result<String, String>,
    threshold: Result<String, String>,
    shrinker: Result<String, String>,
) -> (r: Result<ZswapConfig, String>)
    ensures
        config_result(r) == zswap_config_of(
            string_result(enabled),
            string_result(compressor),
            string_result(pool),
            string_result(threshold),
            string_result(shrinker),
        ),
{
    let ghost (e0, c0, p0, t0, s0) = (
        string_result(enabled),
        string_result(compressor),
        string_result(pool),
        string_result(threshold),
        string_result(shrinker),
    );
    let enabled = read_sysfs_bool(ZSWAP_ENABLED, enabled)?;
    let compressor = read_sysfs_string(ZSWAP_COMPRESSOR, compressor)?;
    let max_pool_percent = read_sysfs_u8(ZSWAP_MAX_POOL_PERCENT, pool)?;
    let accept_threshold_percent = read_sysfs_u8(ZSWAP_ACCEPT_THRESHOLD, threshold)?;
    let shrinker_enabled = read_sysfs_bool(ZSWAP_SHRINKER, shrinker)?;
    Ok(ZswapConfig {
        enabled,
        compressor,
        max_pool_percent,
        accept_threshold_percent,
        shrinker_enabled,
    })
}

/// The compression algorithms that zswap can use, in sorted order.
pub open spec fn compressor_candidates() -> Seq<Seq<char>> {
    seq!["842"@, "deflate"@, "lz4"@, "lz4hc"@, "lzo"@, "zstd"@]
}

/// `/proc/crypto` lists the algorithm: a `name` line with it, or a `driver`
/// line with an implementation of it.
pub open spec fn crypto_has(content: Seq<char>, algo: Seq<char>) -> bool {
    contains(content, "name         : "@ + algo) || contains(content, "driver       : "@ + algo + "-"@)
}

/// The candidates that are available, in order: those that `/proc/crypto`
/// lists, and `lzo`, which is always available.
pub open spec fn listed(content: Seq<char>, cands: Seq<Seq<char>>) -> Seq<Seq<char>>
    decreases cands.len(),
{
    if cands.len() == 0 {
        Seq::empty()
    } else if cands.last() == "lzo"@ || crypto_has(content, cands.last()) {
        listed(content, cands.drop_last()).push(cands.last())
    } else {
        listed(content, cands.drop_last())
    }
}

/// The algorithms available to zswap, sorted and each once: `lzo` always,
/// and each other candidate that `/proc/crypto` lists; `lzo` alone when it
/// cannot be read.
pub open spec fn available_compressors(content: Option<Seq<char>>) -> Seq<Seq<char>> {
    match content {
        None => seq!["lzo"@],
        Some(c) => listed(c, compressor_candidates()),
    }
}

pub open spec fn option_view(o: Option<String>) -> Option<Seq<char>> {
    match o {
        Some(s) => Some(s@),
        None => None,
    }
}

/// Whether the crypto list `c` holds `algo`.
fn crypto_has_exec(c: &Vec<char>, algo: &str) -> (b: bool)
    ensures
        b == crypto_has(c@, algo@),
{
    let mut p1 = chars_of("name         : ");
    push_str(&mut p1, algo);
    let mut p2 = chars_of("driver       : ");
    push_str(&mut p2, algo);
    push_str(&mut p2, "-");
    find_exec(c, &p1).is_some() || find_exec(c, &p2).is_some()
}

/// The compression algorithms available to zswap, from the contents of
/// `/proc/crypto` (`None` when it could not be read).
pub fn get_available_compressors(crypto: Option<String>) -> (r: Vec<String>)
    ensures
        strings_view(r@) == available_compressors(option_view(crypto)),
{
    let c = match crypto {
        None => {
            let r = crate::swap::exec::one("lzo");
            return r;
        },
        Some(c) => c,
    };
    let v = chars_of(c.as_str());
    let names = ["842", "deflate", "lz4", "lz4hc", "lzo", "zstd"];
    let ghost cands = compressor_candidates();
    let mut r: Vec<String> = Vec::new();
    let mut i: usize = 0;
    assert(cands.take(0) =~= Seq::<Seq<char>>::empty());
    while i < 6
        invariant
            i <= 6,
            names@.len() == 6,
            forall|k: int| 0 <= k < 6 ==> (#[trigger] names@[k])@ == cands[k],
            cands == compressor_candidates(),
            strings_view(r@) == listed(v@, cands.take(i as int)),
        decreases 6 - i,
    {
        let name = names[i];
        assert(cands.take(i + 1).drop_last() =~= cands.take(i as int));
        assert(cands.take(i + 1).last() == name@);
        let nv = chars_of(name);
        assert(nv@.subrange(0, nv@.len() as int) =~= nv@);
        if eq_str(&nv, 0, nv.len(), "lzo") || crypto_has_exec(&v, name) {
            let ghost before = r@;
            r.push(owned(name));
            assert(strings_view(r@) =~= strings_view(before).push(name@));
        }
        i += 1;
    }
    assert(cands.take(6) =~= cands);
    r
}

/// Writes `value` to a zswap parameter; the plan reports the write's result.
pub open spec fn set_param(path: Seq<char>, value: Seq<char>) -> PlanView {
    PlanView { steps: seq![must(write_file(path, value))], finish: FinishView::LastOutput }
}

fn write_param(path: &str, value: &str) -> (p: Plan)
    ensures
        p@ == set_param(path@, value@),
{
    single(Request::WriteFile { path: owned(path), value: owned(value) })
}

/// Enables zswap (writes `1`).
pub fn enable_zswap() -> (p: Plan)
    ensures
        p@ == set_param(ZSWAP_ENABLED@, "1"@),
{
    write_param(ZSWAP_ENABLED, "1")
}

/// Disables zswap (writes `0`).
pub fn disable_zswap() -> (p: Plan)
    ensures
        p@ == set_param(ZSWAP_ENABLED@, "0"@),
{
    write_param(ZSWAP_ENABLED, "0")
}

/// Writes a number to a zswap parameter.
fn write_number(path: &str, n: u8) -> (p: Plan)
    ensures
        p@ == set_param(path@, dec_string(n as nat)),
{
    let mut d = Vec::new();
    push_dec(&mut d, n as u64);
    assert(d@ =~= dec_string(n as nat));
    single(Request::WriteFile { path: owned(path), value: string_of(&d) })
}

/// Sets the largest share of RAM, in percent, that the pool may take.
pub fn set_max_pool_percent(pct: u8) -> (p: Plan)
    ensures
        p@ == set_param(ZSWAP_MAX_POOL_PERCENT@, dec_string(pct as nat)),
{
    write_number(ZSWAP_MAX_POOL_PERCENT, pct)
}

/// Sets the accept threshold percent.
pub fn set_accept_threshold(pct: u8) -> (p: Plan)
    ensures
        p@ == set_param(ZSWAP_ACCEPT_THRESHOLD@, dec_string(pct as nat)),
{
    write_number(ZSWAP_ACCEPT_THRESHOLD, pct)
}

/// Enables (`Y`) or disables (`N`) the shrinker.
pub fn set_shrinker(enabled: bool) -> (p: Plan)
    ensures
        p@ == set_param(ZSWAP_SHRINKER@, if enabled { "Y"@ } else { "N"@ }),
{
    if enabled {
        write_param(ZSWAP_SHRINKER, "Y")
    } else {
        write_param(ZSWAP_SHRINKER, "N")
    }
}

/// Whether `algo` is one of `list`.
pub fn listed_in(algo: &str, list: &Vec<String>) -> (b: bool)
    ensures
        b == strings_view(list@).contains(algo@),
{
    let a = owned(algo);
    let mut i: usize = 0;
    while i < list.len()
        invariant
            i <= list.len(),
            a@ == algo@,
            forall|k: int| 0 <= k < i ==> strings_view(list@)[k] != algo@,
        decreases list.len() - i,
    {
        if list[i] == a {
            assert(strings_view(list@)[i as int] == algo@);
            return true;
        }
        i += 1;
    }
    false
}

/// What setting the compressor to `algo` does first.
#[derive(Debug)]
pub enum CompressorStep {
    /// The algorithm is available: write it.
    Write(Plan),
    /// It is not: load its module, then look at the available ones again
    /// (`set_compressor_retry`); the module load's own result is ignored.
    LoadModule(Request),
}

/// Sets the zswap compressor, given the algorithms available now.
pub fn set_compressor(algo: &str, available: &Vec<String>) -> (s: CompressorStep)
    ensures
        strings_view(available@).contains(algo@) ==> (s matches CompressorStep::Write(p) && p@
            == set_param(ZSWAP_COMPRESSOR@, algo@)),
        !strings_view(available@).contains(algo@) ==> (s matches CompressorStep::LoadModule(r)
            && r@ == helper("modprobe"@, seq![algo@])),
{
    if listed_in(algo, available) {
        CompressorStep::Write(write_param(ZSWAP_COMPRESSOR, algo))
    } else {
        CompressorStep::LoadModule(crate::swap::exec::run_modprobe(algo))
    }
}

/// The strings of `list` joined with `sep` in between.
pub open spec fn join(list: Seq<Seq<char>>, sep: Seq<char>) -> Seq<char>
    decreases list.len(),
{
    if list.len() == 0 {
        Seq::empty()
    } else if list.len() == 1 {
        list[0]
    } else {
        join(list.drop_last(), sep) + sep + list.last()
    }
}

/// Joins strings with a separator.
pub fn join_strings(list: &Vec<String>, sep: &str) -> (s: String)
    ensures
        s@ == join(strings_view(list@), sep@),
{
    let mut out: Vec<char> = Vec::new();
    let ghost l = strings_view(list@);
    let mut i: usize = 0;
    assert(l.take(0) =~= Seq::<Seq<char>>::empty());
    while i < list.len()
        invariant
            i <= list.len(),
            l == strings_view(list@),
            out@ == join(l.take(i as int), sep@),
        decreases list.len() - i,
    {
        if i > 0 {
            push_str(&mut out, sep);
        }
        push_string(&mut out, &list[i]);
        assert(l.take(i + 1).drop_last() =~= l.take(i as int));
        assert(l.take(i + 1).last() == list@[i as int]@);
        if i == 0 {
            assert(l.take(1)[0] == list@[0]@);
        }
        i += 1;
    }
    assert(l.take(list.len() as int) =~= l);
    string_of(&out)
}

/// The message when `algo` is still missing after loading its module.
pub open spec fn unavailable_message(algo: Seq<char>, available: Seq<Seq<char>>) -> Seq<char> {
    "Compressor '"@ + algo + "' is not available. Available: "@ + join(available, ", "@) + "."@
}

/// Sets the zswap compressor after its module was loaded, given the
/// algorithms available then.
pub fn set_compressor_retry(algo: &str, available: &Vec<String>) -> (r: Result<Plan, String>)
    ensures
        strings_view(available@).contains(algo@) ==> (r matches Ok(p) && p@ == set_param(
            ZSWAP_COMPRESSOR@,
            algo@,
        )),
        !strings_view(available@).contains(algo@) ==> (r matches Err(m) && m@
            == unavailable_message(algo@, strings_view(available@))),
{
    if listed_in(algo, available) {
        Ok(write_param(ZSWAP_COMPRESSOR, algo))
    } else {
        let mut m = chars_of("Compressor '");
        push_str(&mut m, algo);
        push_str(&mut m, "' is not available. Available: ");
        let j = join_strings(available, ", ");
        push_string(&mut m, &j);
        push_str(&mut m, ".");
        Err(string_of(&m))
    }
}

/// What a parameter file holds after a write of `value`: the value and a
/// newline.
pub open spec fn written(value: Seq<char>) -> Result<Seq<char>, Seq<char>> {
    Ok(value + seq!['\n'])
}

/// Reading the zswap settings back gives what was written: once zswap was
/// enabled (`enable_zswap`) and the compressor `c` (`set_compressor`), the
/// pool `p` (`set_max_pool_percent`), the threshold `q`
/// (`set_accept_threshold`) and the shrinker `b` (`set_shrinker`) were
/// written, and nothing else wrote those files, the configuration read is
/// exactly those values (for a compressor name without whitespace at either
/// end).
pub proof fn lemma_zswap_read_back(c: Seq<char>, p: u8, q: u8, b: bool)
    requires
        c.len() > 0,
        !crate::text::is_ws(c[0]),
        !crate::text::is_ws(c.last()),
    ensures
        zswap_config_of(
            written("1"@),
            written(c),
            written(dec_string(p as nat)),
            written(dec_string(q as nat)),
            written(if b { "Y"@ } else { "N"@ }),
        ) == Ok::<ZswapConfigView, Seq<char>>(
            ZswapConfigView {
                enabled: true,
                compressor: c,
                max_pool_percent: p,
                accept_threshold_percent: q,
                shrinker_enabled: b,
            },
        ),
{
    reveal_strlit("1");
    reveal_strlit("Y");
    reveal_strlit("N");
    reveal_strlit("true");
    crate::text::lemma_trim_line("1"@);
    crate::text::lemma_trim_line(c);
    crate::text::lemma_trim_dec_line(p as nat);
    crate::text::lemma_trim_dec_line(q as nat);
    crate::text::lemma_parse_dec_string(p as nat, u8::MAX as nat);
    crate::text::lemma_parse_dec_string(q as nat, u8::MAX as nat);
    crate::text::lemma_trim_line("Y"@);
    crate::text::lemma_trim_line("N"@);
    assert(sysfs_bool("1"@));
    assert(eq_ignore_ascii_case("Y"@, "Y"@));
    assert(sysfs_bool("Y"@));
    assert(!eq_ignore_ascii_case("N"@, "Y"@)) by {
        assert(ascii_lower("N"@[0]) != ascii_lower("Y"@[0]));
    }
    assert("N"@ != "1"@);
    assert(!sysfs_bool("N"@));
}

} // verus!
