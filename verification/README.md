# Porthole

Porthole shares folders with other devices on the local network: pick the
folders, start the built-in web server, and open the shown link (or scan its QR
code) from a phone or another computer to browse, download and upload files.

## Layout

- `src/` — the verified library (Verus):
  - `text.rs`: character-level string helpers, decimal and hexadecimal rendering;
  - `paths.rs`: paths as text, std's `Path` queries behind specified wrappers,
    joining, and which relative paths a request may name;
  - `config.rs`: the list of shared folders and its laws (no repeated paths,
    adding is idempotent, removing undoes adding);
  - `folders.rs`: shared folders with their FNV-1a ids, the list built from the
    configuration, and the watch channel between desktop and server;
  - `listing.rs`: directory listings, stably sorted with directories first and
    names in `str` order;
  - `api.rs`: the HTTP API's rules (refused paths, confinement, upload names,
    download headers, status codes);
  - `util.rs`: choice of the LAN address, the server link, display of paths;
  - `client.rs`: the desktop window as a state machine of messages, actions and
    outcomes.
- `tests/` — tests of the library.
- `app/` — the program: the iced window, the axum server, file and network I/O.

## Platform

Paths are Unix paths throughout: the library states `Path`'s components,
joining and absoluteness as they are on Unix, so the program targets Unix-like
systems. Folder ids feed a `usize` to the hasher as eight little-endian bytes,
so an id does not depend on the machine.

## Dependencies

`Cargo.toml` names `wayland-sys` with its `dlopen` feature only so that iced
and rfd build without linking the system Wayland library; no code uses it.
