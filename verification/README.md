# vp_trampoline

The Windows shim trampoline of vite-plus: a tiny executable, copied once per
tool (`node.exe`, `npm.exe`, ...), that starts `vp.exe` with the tool's name in
`VP_SHIM_TOOL` and forwards the caller's command line verbatim.

- `src/cmdline.rs` — verified helpers over UTF-16 code units and bytes:
  where the program argument of a raw command line ends, the length of a file
  stem, ASCII comparison and decimal formatting, with their laws.
- `src/launch.rs` — the verified decisions of the launcher: the tool name,
  `VP_HOME` and `vp.exe` from the shim's own path, the environment changes, the
  child's command line, the exit code, and every diagnostic it prints.
- `app/` — the executable: raw Win32 calls on Windows, `std::process` elsewhere,
  each decision taken from the library.
