# spec_elf

Packs several x86-64 builds of one program behind a launcher executable and, at run
time, picks the build that suits the host CPU.

- `src/` is the verified library:
  - `archive/format.rs`: the packed layout (launcher, zstd frames, manifest, footer),
    packing, reading back, `is_archive`;
  - `archive/select.rs`: payload labels and the selection of the build for a host;
  - `archive/codec.rs`: the zstd calls;
  - `archive/properties.rs`: what holds across packing, reading and selecting;
  - `builder/`: language detection, the build plan, source ordering, `Cargo.toml`
    binary names;
  - `cli.rs`: command-line decisions; `text.rs`: UTF-8 helpers.
- `app/` is the program around it: files, processes, CPU detection.
- `tests/` exercise the library on concrete inputs.
