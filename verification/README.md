# andro

Run Android apps — phone or smart TV — from the macOS command line on a
disposable, self-contained emulator. Everything (a JDK, the Android SDK, the
AVDs) lives under `~/.andro`.

The crate is split in two:

- `src/` is the library, verified with Verus. It holds the decisions: the
  `~/.andro` layout and the environment every bundled tool runs with
  (`sdk`), configuration precedence and `config.toml` parsing (`config`), the
  parsing of adb output and AVD `config.ini` files (`emulator`), the arguments
  and wait steps of provisioning (`provision`), the arguments and reports of
  each command (`commands`), and what `autoclean` may remove (`autoclean`).
  `text` has the character-level vocabulary they share (`str::lines`,
  `trim`, prefixes, decimal numbers, sorting).
- `app/` is the `andro` program: argument parsing with clap, running the
  tools, downloading, sleeping and touching the filesystem, each step asking
  the library what to do.

Besides exact contracts for each function, the library proves properties that
span calls, among them: the tools' state stays inside `~/.andro`; the
`hw.keyboard` rewrite of an AVD config is idempotent; `autoclean` keeps to
andro's own entries of its home, never reaches the SDK or the JDK in its safe
pass and never prunes the image an AVD runs; a matching
AVD carries the label that was asked for; and command-line flags beat the
environment, which beats `config.toml`.
