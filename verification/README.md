# octopos

Verified pieces of the octopos teaching kernel and its user space, written in
Verus.

- `src/message.rs`: the kernel's single message slot (`set_msg` / `get_msg`),
  with the read-after-write laws.
- `src/line_editor.rs`: the raw-console line editor. Each key is a step from
  the current line and cursor to the next, returning the bytes that bring the
  terminal up to date; the caller reads keys and writes those bytes.
- `src/decimal.rs`: decimal rendering used in cursor-movement escapes.
- `src/console.rs`: when a console write counts as complete.
- `app/main.rs`: a host program around the library (shared slot behind a
  lock, console streams, the read-line loop).
