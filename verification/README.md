# rust_browser_handler

A rule-based browser chooser: links opened on the desktop are sent to the
browser that the user's rules name, or the user is asked which browser to
use. The crate is written in Verus; `src/` is the verified library, `app/`
the command-line program around it.

- `src/text.rs` — character-level string operations (trim, split, lines,
  join, replace, substring search) with their mathematical meaning.
- `src/browser_discovery.rs` — file names of Unix and Windows paths (drive,
  UNC, device and verbatim prefixes), official browser names, path normalisation,
  the sorted list of detected browsers.
- `src/rules.rs` — which browser a rule sends a URL to (substring or
  regular-expression rules), the rule remembered for a URL's domain.
- `src/commands.rs` — interactive commands, the answer to the browser
  prompt, where to register from.
- `src/gui.rs` — labels and choices of the chooser dialog.
- `src/diagnostics.rs` — the editor's external-browser setting as the
  `doctor` command reports it.
- `src/platform/linux_impl.rs` — XDG desktop entry, `mimeapps.list`
  clean-up, decisions on what `xdg-mime` and `xdg-settings` report;
  `src/platform/mimeapps_laws.rs` proves the clean-up idempotent (unless a
  cleaned line before a newline ends in a carriage return).
- `src/platform/windows_impl.rs` — registry command strings and browser
  executables.
- `app/` — argument parsing, files, processes, the registry and the Slint
  dialog.
