# oxidroid

A terminal system monitor for Android (Termux), Linux and Windows, split into a
verified library and a thin program around it.

- `src/` is the library, verified with Verus: the parsers for what the system
  reports (`/proc/net/dev`, `ip -s link`, `ifconfig`, `uptime`, the battery
  files and `wmic`, `getprop`), the rules that combine sources and fallbacks
  (`gather`), the byte and uptime formats, the file explorer, the tabs and the
  key handling, and the texts the panels show.
- `app/` is the program: the terminal, the collector thread that queries the
  system through `sysinfo`, files and commands, and the drawing with `ratatui`.
  Usage percentages, speeds and the battery temperature are floats and stay there.
- `tests/` runs the library on concrete inputs.
