# shimcache-forensic (verified)

A Verus-verified decoder for the Windows AppCompatCache (ShimCache) registry value and a small
analyzer over its entries.

- `src/` — the verified library:
  - `bytes`, `utf16`, `text`: bounds-checked little-endian readers, UTF-16 path fields,
    character-level helpers.
  - `model`, `detect`, `parse`: the public types, format detection (including the structural
    32/64-bit choice) and the decoders of every layout, each proved equal to a spec function
    that walks the layout.
  - `message`: the error text.
  - `audit`, `report`: the graded findings (`classify_entry` decides one entry's findings from
    the answers of the case-folding and list lookups; `audit` runs it over every entry) and
    `analyze_blob`.
  - `render`: the text report (summary, findings, entry list).
  - `hive`: the control-set search for the AppCompatCache value (ControlSet001, then
    ControlSet002) over a caller-supplied registry lookup, and `analyze_hive`.
  - `laws`, `roundtrip`: properties proved over the whole library — decoding succeeds exactly
    when the format is detected, the execution flag is tri-state by format, findings come from
    entries, and decoding an encoded cache of each layout gives back the encoded entries.
- `app/`: the `shimcache4n6` command line (opening the hive file and reading registry values
  with `winreg-core`, printing the rendered report, and the `forensicnomicon` `Observation`
  mapping).
- `tests/`: decoder and analyzer tests.
