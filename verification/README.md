# FlowLens

A local activity tracker for Windows: it samples the foreground window and
input counts, groups them into flow minutes, work sessions and re-entries
after breaks, and builds a focus view of the day, daily reports compared with
a personal baseline, and optional local embeddings. Nothing leaves the
machine.

## Layout

- `src/` is the library, verified with Verus. It holds the tracker's state
  and every rule that decides what is recorded: sessions, flow minutes,
  application focus, re-entry episodes, drive snapshots, the day change,
  the focus view, the report archive and its baseline selection, and the
  answers to the interface's requests. `src/laws.rs` states what holds across
  calls (bounded histories, one flow minute per key, an ordered archive of
  at most 365 reports, one embedding per date, the busiest hour within the
  work span, and an order-independent median).
- `app/` is the ordinary Rust around it: reading Windows (foreground window,
  input, drives, network), the sampling loop, saving `activity.json`, the
  floating-point measures (intensities, rates, embeddings, robust
  comparisons) and the commands the desktop window calls.
- `tests/` exercises the library on concrete days.
