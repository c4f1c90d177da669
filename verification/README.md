# anduinos_control

The logic behind two AnduinOS system tools, with its behaviour stated in
contracts and proved with Verus:

- `swap`: swap control — the swap file, zram devices, zswap, the
  swappiness and its configuration file, hibernation checks, RAM
  information and the memory stress test. Reading system files yields
  plain values that the parsers take; privileged changes are described as
  plans of helper commands (`pkexec`) whose outcomes the library interprets.
- `ufw`: firewall control — reading the state of `ufw` (configuration,
  rules, application profiles), the `ufw` command lines for every change,
  the statistics from the kernel log, `ss` and `iptables`, and the debounce
  of configuration changes.
- `text`: the string operations the parsers rely on, specified over
  `Seq<char>`.

`app/` is a command-line front end: it reads the files, runs the commands
and prints, and hands the library plain values.

Verify with Verus; the tests under `tests/` run the library on concrete
inputs.
