# hud-cli

A system dashboard for a 1424x280 "HUD" monitor: clock, battery, disks, CPU,
memory, GPU and network cards with rolling sparkline histories.

- `src/` is the verified library (Verus): the rolling histories and what a
  poll of the sensors shows (`sensors`), the choice and ordering of disks
  (`disks`), clock text (`clock`), transfer-speed and reading text
  (`sensors::fmt_speed`, `ui`), decimal rendering (`text`), the HUD monitor
  and window-placement decisions (`window`), the per-frame decisions of the
  window (`schedule`) and the command line (`cli`).
- `app/` is the program around it: the egui window, and the calls into
  sysinfo, NVML, the cpu-temp driver and Win32 that read the hardware and
  move the window. Floating-point values (usage, temperatures, power) are
  computed there and handed to the library rounded.
- `tests/` exercises the library on concrete values.
