# touchhle

Verified core logic of a high-level emulator for iPhone OS apps, written in
Verus. Every function under `src/` is verified against its contract, except
the small trusted wrappers around outside crates and std, whose contracts
(where they have one) are assumed.

## Layout

- `src/` — the verified library, one module per subsystem:
  guest memory (`mem`), the dynamic linker (`dyld`), the Objective-C runtime
  (`objc`), dictionary storage (`dictionary`), Foundation, UIKit, OpenAL,
  Accelerate, CommonCrypto (SHA-256 stated as spec functions and proved),
  `libc`, SQLite handles, `NSRegularExpression` range conversion, GLSL ES
  shader translation, the application bundle, and the window's decisions
  about sizes, orientations and input.
- `tests/` — tests run against the compiled library.
- `app/` — the host side that cannot be verified: SDL windowing and input,
  floating-point vector routines, reading `Info.plist` files from disk, opening
  SQLite databases, and printing symbol tables. It calls the library for
  every decision.

Calls into outside crates (`plist`, `regex`, `rusqlite`) stand behind small
trusted wrappers in `src/`, each with a doc comment that says what its
contract claims of the crate.
