//! Hibernation: whether the kernel can suspend to disk and where it would
//! resume from, read from `/sys/power`, the kernel command line and the
//! initramfs configuration.
use vstd::prelude::*;
use crate::swap::types::HibernationStatus;
use crate::text::{
    chars_of, eq_str, lines, lines_range, parse_u64, parse_u64_range, ranges_view, ranges_within,
    starts_with, starts_with_range, string_of_range, tokens, tokens_range, trim, trim_range,
    trim_set, trim_set_range,
};

verus! {

/// Power states that the kernel offers.
pub const SYS_POWER_STATE: &'static str = "/sys/power/state";

/// The hibernation mode, `[disabled]` when hibernation is off.
pub const SYS_POWER_DISK: &'static str = "/sys/power/disk";

/// The kernel command line.
pub const PROC_CMDLINE: &'static str = "/proc/cmdline";

/// Resume device of the initramfs.
pub const INITRAMFS_RESUME: &'static str = "/etc/initramfs-tools/conf.d/resume";

/// A hibernation status, as plain values.
pub struct HibernationStatusView {
    pub system_supports: bool,
    pub enabled: bool,
    pub resume_device: Option<Seq<char>>,
    pub resume_offset: Option<u64>,
    pub initramfs_resume: Option<Seq<char>>,
}

impl View for HibernationStatus {
    type V = HibernationStatusView;

    open spec fn view(&self) -> HibernationStatusView {
        HibernationStatusView {
            system_supports: self.system_supports,
            enabled: self.enabled,
            resume_device: match self.resume_device {
                Some(s) => Some(s@),
                None => None,
            },
            resume_offset: self.resume_offset,
            initramfs_resume: match self.initramfs_resume {
                Some(s) => Some(s@),
                None => None,
            },
        }
    }
}

/// The value of the last field that starts with `key`: the rest of that field.
pub open spec fn last_value(toks: Seq<Seq<char>>, key: Seq<char>) -> Option<Seq<char>>
    decreases toks.len(),
{
    if toks.len() == 0 {
        None
    } else if starts_with(toks.last(), key) {
        Some(toks.last().skip(key.len() as int))
    } else {
        last_value(toks.drop_last(), key)
    }
}

pub open spec fn quote() -> Seq<char> {
    seq!['"']
}

/// The value of the last line `RESUME=<value>` whose value, without its
/// quotes, is not empty.
pub open spec fn initramfs_value(ls: Seq<Seq<char>>) -> Option<Seq<char>>
    decreases ls.len(),
{
    if ls.len() == 0 {
        None
    } else {
        let l = trim(ls.last());
        let v = trim_set(l.skip(7), quote());
        if starts_with(l, "RESUME="@) && v.len() > 0 {
            Some(v)
        } else {
            initramfs_value(ls.drop_last())
        }
    }
}

/// The hibernation status, from the contents of `/sys/power/state`,
/// `/sys/power/disk`, `/proc/cmdline` and the initramfs resume file (`None`
/// where a file could not be read).
pub open spec fn hibernation_of(
    state: Option<Seq<char>>,
    disk: Option<Seq<char>>,
    cmdline: Option<Seq<char>>,
    resume: Option<Seq<char>>,
) -> HibernationStatusView {
    HibernationStatusView {
        system_supports: match state {
            Some(c) => tokens(c).contains("disk"@),
            None => false,
        },
        enabled: match disk {
            Some(c) => !starts_with(trim(c), "[disabled]"@),
            None => false,
        },
        resume_device: match cmdline {
            Some(c) => last_value(tokens(c), "resume="@),
            None => None,
        },
        resume_offset: match cmdline {
            Some(c) => match last_value(tokens(c), "resume_offset="@) {
                Some(v) => parse_u64(v),
                None => None,
            },
            None => None,
        },
        initramfs_resume: match resume {
            Some(c) => initramfs_value(lines(c)),
            None => None,
        },
    }
}

/// Whether a status shows hibernation configured: enabled, or a resume
/// source given on the command line or in the initramfs.
pub open spec fn configured(s: HibernationStatusView) -> bool {
    s.enabled || s.resume_device is Some || s.initramfs_resume is Some
}

/// Whether `tokens(v[lo..hi])` holds `word`.
fn has_token(v: &Vec<char>, word: &str) -> (b: bool)
    ensures
        b == tokens(v@).contains(word@),
{
    let t = tokens_range(v, 0, v.len());
    assert(v@.subrange(0, v@.len() as int) =~= v@);
    let ghost tv = ranges_view(v@, t@);
    let mut i: usize = 0;
    while i < t.len()
        invariant
            i <= t.len(),
            tv == ranges_view(v@, t@),
            tv == tokens(v@),
            ranges_within(t@, 0, v@.len() as int),
            forall|k: int| 0 <= k < i ==> tv[k] != word@,
        decreases t.len() - i,
    {
        let (a, b) = t[i];
        assert(tv[i as int] == v@.subrange(a as int, b as int));
        if eq_str(v, a, b, word) {
            assert(tv[i as int] == word@);
            return true;
        }
        i += 1;
    }
    false
}

/// The range of the value of the last of the fields `ranges` that starts with
/// `key`.
fn last_value_range(v: &Vec<char>, ranges: &Vec<(usize, usize)>, key: &str) -> (r: Option<
    (usize, usize),
>)
    requires
        ranges_within(ranges@, 0, v@.len() as int),
    ensures
        match r {
            Some((a, b)) => a <= b <= v.len() && last_value(ranges_view(v@, ranges@), key@) == Some(
                v@.subrange(a as int, b as int),
            ),
            None => last_value(ranges_view(v@, ranges@), key@) is None,
        },
{
    let k = chars_of(key);
    let ghost tv = ranges_view(v@, ranges@);
    let mut found: Option<(usize, usize)> = None;
    let mut i: usize = 0;
    assert(tv.take(0) =~= Seq::<Seq<char>>::empty());
    while i < ranges.len()
        invariant
            i <= ranges.len(),
            k@ == key@,
            tv == ranges_view(v@, ranges@),
            ranges_within(ranges@, 0, v@.len() as int),
            match found {
                Some((a, b)) => a <= b <= v.len() && last_value(tv.take(i as int), key@) == Some(
                    v@.subrange(a as int, b as int),
                ),
                None => last_value(tv.take(i as int), key@) is None,
            },
        decreases ranges.len() - i,
    {
        let (a, b) = ranges[i];
        assert(tv.take(i + 1).drop_last() =~= tv.take(i as int));
        assert(tv.take(i + 1).last() == v@.subrange(a as int, b as int));
        if starts_with_range(v, a, b, &k) {
            assert(v@.subrange(a as int, b as int).skip(k@.len() as int) =~= v@.subrange(
                a + k@.len(),
                b as int,
            ));
            found = Some((a + k.len(), b));
        }
        i += 1;
    }
    assert(tv.take(ranges.len() as int) =~= tv);
    found
}

/// The value of the last `RESUME=` line of `v` with a value.
fn initramfs_value_exec(v: &Vec<char>) -> (r: Option<String>)
    ensures
        match r {
            Some(s) => initramfs_value(lines(v@)) == Some(s@),
            None => initramfs_value(lines(v@)) is None,
        },
{
    let ls = lines_range(v, 0, v.len());
    assert(v@.subrange(0, v@.len() as int) =~= v@);
    let ghost lv = ranges_view(v@, ls@);
    let q = chars_of("\"");
    let pre = chars_of("RESUME=");
    proof {
        reveal_strlit("\"");
        reveal_strlit("RESUME=");
    }
    assert(q@ =~= quote());
    let mut found: Option<String> = None;
    let mut i: usize = 0;
    assert(lv.take(0) =~= Seq::<Seq<char>>::empty());
    while i < ls.len()
        invariant
            i <= ls.len(),
            q@ == quote(),
            pre@ == "RESUME="@,
            pre@.len() == 7,
            lv == ranges_view(v@, ls@),
            lv == lines(v@),
            ranges_within(ls@, 0, v@.len() as int),
            match found {
                Some(s) => initramfs_value(lv.take(i as int)) == Some(s@),
                None => initramfs_value(lv.take(i as int)) is None,
            },
        decreases ls.len() - i,
    {
        let (a, b) = ls[i];
        assert(lv.take(i + 1).drop_last() =~= lv.take(i as int));
        assert(lv.take(i + 1).last() == v@.subrange(a as int, b as int));
        let (ta, tb) = trim_range(v, a, b);
        let ghost l = v@.subrange(ta as int, tb as int);
        if starts_with_range(v, ta, tb, &pre) {
            let (va, vb) = trim_set_range(v, ta + 7, tb, &q);
            assert(l.skip(7) =~= v@.subrange(ta + 7, tb as int));
            if va < vb {
                found = Some(string_of_range(v, va, vb));
            }
        }
        i += 1;
    }
    assert(lv.take(ls.len() as int) =~= lv);
    found
}

/// Reads the hibernation status from the contents of `/sys/power/state`,
/// `/sys/power/disk`, `/proc/cmdline` and the initramfs resume file (`None`
/// where a file could not be read).
pub fn check_hibernation(
    state: &Option<String>,
    disk: &Option<String>,
    cmdline: &Option<String>,
    resume: &Option<String>,
) -> (s: HibernationStatus)
    ensures
        s@ == hibernation_of(
            crate::swap::zram::opt_view(*state),
            crate::swap::zram::opt_view(*disk),
            crate::swap::zram::opt_view(*cmdline),
            crate::swap::zram::opt_view(*resume),
        ),
{
    let system_supports = match state {
        Some(c) => {
            let v = chars_of(c.as_str());
            has_token(&v, "disk")
        },
        None => false,
    };
    let enabled = match disk {
        Some(c) => {
            let v = chars_of(c.as_str());
            let (a, b) = trim_range(&v, 0, v.len());
            assert(v@.subrange(0, v@.len() as int) =~= v@);
            let p = chars_of("[disabled]");
            !starts_with_range(&v, a, b, &p)
        },
        None => false,
    };
    let mut resume_device: Option<String> = None;
    let mut resume_offset: Option<u64> = None;
    match cmdline {
        Some(c) => {
            let v = chars_of(c.as_str());
            let t = tokens_range(&v, 0, v.len());
            assert(v@.subrange(0, v@.len() as int) =~= v@);
            match last_value_range(&v, &t, "resume=") {
                Some((a, b)) => {
                    resume_device = Some(string_of_range(&v, a, b));
                },
                None => {},
            }
            match last_value_range(&v, &t, "resume_offset=") {
                Some((a, b)) => {
                    resume_offset = parse_u64_range(&v, a, b);
                },
                None => {},
            }
        },
        None => {},
    }
    let initramfs_resume = match resume {
        Some(c) => {
            let v = chars_of(c.as_str());
            initramfs_value_exec(&v)
        },
        None => None,
    };
    HibernationStatus {
        system_supports,
        enabled,
        resume_device,
        resume_offset,
        initramfs_resume,
    }
}

/// Whether hibernation is configured: enabled, or a resume source present,
/// given the same files as `check_hibernation`.
pub fn is_hibernation_configured(
    state: &Option<String>,
    disk: &Option<String>,
    cmdline: &Option<String>,
    resume: &Option<String>,
) -> (b: bool)
    ensures
        b == configured(
            hibernation_of(
                crate::swap::zram::opt_view(*state),
                crate::swap::zram::opt_view(*disk),
                crate::swap::zram::opt_view(*cmdline),
                crate::swap::zram::opt_view(*resume),
            ),
        ),
{
    let status = check_hibernation(state, disk, cmdline, resume);
    status.enabled || status.resume_device.is_some() || status.initramfs_resume.is_some()
}

} // verus!
