# OmaClip

OmaClip shares new plain-text copies between a Wayland desktop and one Android
phone, over USB or Wi-Fi. Copies that exist when a session begins stay where they
are, and nothing is kept but digests of the last few texts.

- `src/` is the library: every decision the bridge takes, stated in contracts and
  proved with Verus. Functions named `law_...` state what holds across calls.
- `app/` is the program: processes, sockets, the compositor and the file system. It
  performs what the library asks for and reports back.
- `tests/` exercises the library with the real outside crates.

The library calls `sha2`, `base64`, `serde_json` and `tokio`'s clock. What it takes
for granted of them stands beside each call.
