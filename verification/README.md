# Luma

Luma is a Wayland session locker. This crate holds its verified core; the
`luma` executable in `app/` wraps it with the command line, the visual demo,
configuration files, PAM, fonts and the Wayland connection.

## Layout

- `src/state.rs` — the authentication state machine: one attempt at a time,
  stale results ignored, feedback, and a progressive capped cooldown.
- `src/input.rs`, `src/secret.rs` — password input kept as zeroizing UTF-8 bytes.
- `src/auth.rs` — which PAM results are denials, the policy-file check, and the
  outcome a worker reports.
- `src/wayland/lock.rs` — the decisions of the lock's event loop.
- `src/wayland/opaque.rs` — the opaque fallback frame and the prompt, drawn
  into ARGB8888 canvases; `src/wayland/confinement.rs` proves that the prompt
  stays inside its rectangle.
- `src/wayland/capture.rs`, `src/renderer/background.rs` — screen capture
  limits, normalization and blur of captured outputs.
- `src/wayland/capabilities.rs`, `src/wayland/outputs.rs` — registry analysis
  and output metadata.
- `src/cli.rs`, `src/config/`, `src/daemon.rs`, `src/demo.rs`,
  `src/renderer/text.rs` — argument parsing, configuration rules, the readiness
  handshake, the demo's input model and text clipping.

Times are monotonic nanosecond counters supplied by the caller.
