# fromfix

The decisions behind FromFix, a `winmm.dll` proxy that fixes Sekiro: Shadows
Die Twice and Dark Souls III, written in Verus with their contracts proved.

- `src/` — the verified library:
  - `text` — whitespace, trimming, searching and ASCII case over characters;
  - `memory` — IDA-style signatures, signature scans and `find_all` over the
    game image as a byte slice, PE header fields, the wait-for-decryption step;
  - `config` — the `FromFix.ini` parser and the settings it gives;
  - `state` — exact aspect-ratio and HUD geometry, and the float cell type;
  - `plan` — the patches and hooks a fix consists of;
  - `sekiro`, `ds3` — where each fix applies; Dark Souls III's resolution
    entry, UTF-16LE `GraphicsConfig.xml` rewrite and borderless check;
  - `host` — the host executable's directory, file name and game.
- `app/` — the DLL around it: `DllMain`, logging, file access, memory
  protection and writes, hook installation and the float hook handlers.
- `tests/` — tests of the library on concrete inputs.
