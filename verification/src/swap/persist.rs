//! Persistence of zram devices across reboots: a systemd unit that creates
//! the devices at boot, written and enabled through the helper.
use vstd::prelude::*;
use crate::swap::exec::{
    add_step, helper, helper_request, may, must, one, three, two, write_file, Finish, FinishView,
    OnError, Plan, PlanView, Request, Step,
};
use crate::swap::types::ZramDevice;
use crate::text::{
    dec_string, int_string, owned, push_dec, push_int, push_str, push_string, string_of,
};

verus! {

/// The systemd unit that recreates the zram devices at boot.
pub const ZRAM_SERVICE: &'static str = "/etc/systemd/system/anduinos-zram.service";

/// The devices to persist, as plain values: size in MiB, algorithm, priority.
pub open spec fn devices_view(d: Seq<(u64, String, i32)>) -> Seq<(u64, Seq<char>, i32)> {
    d.map_values(|t: (u64, String, i32)| (t.0, t.1@, t.2))
}

/// The lines of the unit that create device number `i`.
pub open spec fn device_lines(i: nat, size_mb: u64, algo: Seq<char>, priority: i32) -> Seq<char> {
    "# Device "@ + dec_string(i) + ": "@ + dec_string(size_mb as nat) + " MiB, algo="@ + algo
        + ", priority="@ + int_string(priority as int) + "\n"@
        + "ExecStart=/usr/lib/anduinos-swapcontrol/helper modprobe zram\n"@
        + "ExecStart=/bin/bash -c 'DEV=$(/usr/lib/anduinos-swapcontrol/helper zramctl -f -s "@
        + dec_string(size_mb as nat) + "M -a "@ + algo
        + ") && /usr/lib/anduinos-swapcontrol/helper mkswap $DEV && /usr/lib/anduinos-swapcontrol/helper swapon -p "@
        + int_string(priority as int) + " $DEV'\n"@
}

/// The lines of the unit that create the devices, in order.
pub open spec fn devices_lines(d: Seq<(u64, Seq<char>, i32)>) -> Seq<char>
    decreases d.len(),
{
    if d.len() == 0 {
        Seq::empty()
    } else {
        devices_lines(d.drop_last()) + device_lines(
            (d.len() - 1) as nat,
            d.last().0,
            d.last().1,
            d.last().2,
        )
    }
}

/// The systemd unit for the devices.
pub open spec fn zram_unit(d: Seq<(u64, Seq<char>, i32)>) -> Seq<char> {
    "# Managed by anduinos-swapcontrol-gtk. Do not edit manually.\n[Unit]\nDescription=AnduinOS Zram Devices\nBefore=swap.target\n\n[Service]\nType=oneshot\nRemainAfterExit=yes\n"@
        + devices_lines(d) + "\n[Install]\nWantedBy=multi-user.target\n"@
}

/// What persisting the devices `d` runs: with no device, the persistence is
/// removed (each step may fail); otherwise the unit is written, which must
/// succeed, and systemd reloaded and the unit enabled.
pub open spec fn persist_plan(d: Seq<(u64, Seq<char>, i32)>) -> PlanView {
    if d.len() == 0 {
        PlanView {
            steps: seq![
                may(helper("swapoff"@, seq!["/dev/zram0"@])),
                may(helper("zramctl"@, seq!["-r"@, "/dev/zram0"@])),
                may(helper("systemctl"@, seq!["disable"@, "--now"@, "anduinos-zram.service"@])),
                may(helper("rm"@, seq!["-f"@, ZRAM_SERVICE@])),
                may(helper("systemctl"@, seq!["daemon-reload"@])),
            ],
            finish: FinishView::Message("Zram persistence removed"@),
        }
    } else {
        PlanView {
            steps: seq![
                must(write_file(ZRAM_SERVICE@, zram_unit(d))),
                may(helper("systemctl"@, seq!["daemon-reload"@])),
                may(helper("systemctl"@, seq!["enable"@, "anduinos-zram.service"@])),
            ],
            finish: FinishView::Message("Zram persistence enabled"@),
        }
    }
}

/// Appends the lines that create device `i` to `out`.
fn push_device_lines(out: &mut Vec<char>, i: u64, size_mb: u64, algo: &String, priority: i32)
    ensures
        final(out)@ == old(out)@ + device_lines(i as nat, size_mb, algo@, priority),
{
    push_str(out, "# Device ");
    push_dec(out, i);
    push_str(out, ": ");
    push_dec(out, size_mb);
    push_str(out, " MiB, algo=");
    push_string(out, algo);
    push_str(out, ", priority=");
    push_int(out, priority as i64);
    push_str(out, "\n");
    push_str(out, "ExecStart=/usr/lib/anduinos-swapcontrol/helper modprobe zram\n");
    push_str(
        out,
        "ExecStart=/bin/bash -c 'DEV=$(/usr/lib/anduinos-swapcontrol/helper zramctl -f -s ",
    );
    push_dec(out, size_mb);
    push_str(out, "M -a ");
    push_string(out, algo);
    push_str(
        out,
        ") && /usr/lib/anduinos-swapcontrol/helper mkswap $DEV && /usr/lib/anduinos-swapcontrol/helper swapon -p ",
    );
    push_int(out, priority as i64);
    push_str(out, " $DEV'\n");
    assert(out@ =~= old(out)@ + device_lines(i as nat, size_mb, algo@, priority));
}

/// The systemd unit that creates `devices` at boot.
fn zram_unit_text(devices: &Vec<(u64, String, i32)>) -> (s: String)
    ensures
        s@ == zram_unit(devices_view(devices@)),
{
    let ghost d = devices_view(devices@);
    let mut out: Vec<char> = Vec::new();
    push_str(
        &mut out,
        "# Managed by anduinos-swapcontrol-gtk. Do not edit manually.\n[Unit]\nDescription=AnduinOS Zram Devices\nBefore=swap.target\n\n[Service]\nType=oneshot\nRemainAfterExit=yes\n",
    );
    let ghost head = out@;
    let mut i: usize = 0;
    assert(d.take(0) =~= Seq::<(u64, Seq<char>, i32)>::empty());
    while i < devices.len()
        invariant
            i <= devices.len(),
            d == devices_view(devices@),
            out@ == head + devices_lines(d.take(i as int)),
        decreases devices.len() - i,
    {
        let (size_mb, algo, priority) = &devices[i];
        assert(d.take(i + 1).drop_last() =~= d.take(i as int));
        assert(d.take(i + 1).last() == (*size_mb, algo@, *priority));
        push_device_lines(&mut out, i as u64, *size_mb, algo, *priority);
        assert(out@ =~= head + devices_lines(d.take(i + 1)));
        i += 1;
    }
    assert(d.take(devices.len() as int) =~= d);
    push_str(&mut out, "\n[Install]\nWantedBy=multi-user.target\n");
    assert(out@ =~= zram_unit(d));
    string_of(&out)
}

/// Makes the zram devices `devices` (size in MiB, algorithm, priority)
/// persistent with a systemd unit; with no device, removes the persistence.
pub fn persist_zram(devices: &Vec<(u64, String, i32)>) -> (p: Plan)
    ensures
        p@ == persist_plan(devices_view(devices@)),
{
    let mut steps: Vec<Step> = Vec::new();
    if devices.len() == 0 {
        add_step(&mut steps, helper_request("swapoff", one("/dev/zram0")), OnError::Ignore);
        add_step(&mut steps, helper_request("zramctl", two("-r", "/dev/zram0")), OnError::Ignore);
        add_step(
            &mut steps,
            helper_request("systemctl", three("disable", "--now", "anduinos-zram.service")),
            OnError::Ignore,
        );
        add_step(&mut steps, helper_request("rm", two("-f", ZRAM_SERVICE)), OnError::Ignore);
        add_step(&mut steps, helper_request("systemctl", one("daemon-reload")), OnError::Ignore);
        let p = Plan { steps, finish: Finish::Message(owned("Zram persistence removed")) };
        assert(p@.steps =~= persist_plan(devices_view(devices@)).steps);
        p
    } else {
        let unit = zram_unit_text(devices);
        add_step(
            &mut steps,
            Request::WriteFile { path: owned(ZRAM_SERVICE), value: unit },
            OnError::Stop,
        );
        add_step(&mut steps, helper_request("systemctl", one("daemon-reload")), OnError::Ignore);
        add_step(
            &mut steps,
            helper_request("systemctl", two("enable", "anduinos-zram.service")),
            OnError::Ignore,
        );
        let p = Plan { steps, finish: Finish::Message(owned("Zram persistence enabled")) };
        assert(p@.steps =~= persist_plan(devices_view(devices@)).steps);
        p
    }
}

/// The devices to persist, from the devices that exist: size in MiB,
/// algorithm and priority of each.
pub open spec fn configs_of(devs: Seq<crate::swap::zram::ZramDeviceView>) -> Seq<(u64, Seq<char>, i32)> {
    devs.map_values(
        |d: crate::swap::zram::ZramDeviceView| ((d.size_bytes / 1048576) as u64, d.comp_algorithm, d.swap_priority),
    )
}

/// What to persist for the existing zram devices.
pub fn zram_persist_configs(devices: &Vec<ZramDevice>) -> (r: Vec<(u64, String, i32)>)
    ensures
        devices_view(r@) == configs_of(crate::swap::zram::devices_view(devices@)),
{
    let ghost dv = crate::swap::zram::devices_view(devices@);
    let mut r: Vec<(u64, String, i32)> = Vec::new();
    let mut i: usize = 0;
    while i < devices.len()
        invariant
            i <= devices.len(),
            dv == crate::swap::zram::devices_view(devices@),
            devices_view(r@) == configs_of(dv.take(i as int)),
        decreases devices.len() - i,
    {
        let d = &devices[i];
        let ghost before = devices_view(r@);
        r.push((d.size_bytes / 1048576, d.comp_algorithm.clone(), d.swap_priority));
        assert(devices_view(r@) =~= before.push(((d.size_bytes / 1048576) as u64, d.comp_algorithm@, d.swap_priority)));
        assert(dv[i as int] == d@);
        assert(configs_of(dv.take(i + 1)) =~= configs_of(dv.take(i as int)).push(
            ((dv[i as int].size_bytes / 1048576) as u64, dv[i as int].comp_algorithm, dv[i as int].swap_priority),
        ));
        i += 1;
    }
    assert(dv.take(devices.len() as int) =~= dv);
    r
}

} // verus!
