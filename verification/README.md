# The Whimper decompiler

Whimper translates x86_64 machine code of PE images into a TypeScript-like
program. Every step is verified: the library under `src/` states with Verus what
each tier of its intermediate representation is, and proves that the code
computes it.

- `pe` maps a PE32+ file: its headers and sections at their virtual addresses,
  with zeros where the file has no data.
- `irt0` to `irt6` are the tiers: explicit machine operations, synthetic functions
  with conditions, values, structured control flow, loops, inferred types, and
  recovered operations. Each has its own IR, and `lift` or `try_lift` makes it from
  the tier below.
- `partitions` shows which flags a straight-line partition reads from outside.
- `x86` decodes instructions with `iced-x86`. Its wrappers, and one of
  `String::from_utf8_lossy` in `pe`, are the only code that is trusted rather than
  proved.

`app/` is the command line program. It looks for the first PE file in
`samplebinary/` by filename.

- `--list-sections` prints the mapped section ranges and the entry point.
- `--read 0x1401c8000 16` prints 16 mapped bytes at an address as hex.
- Without these it decompiles the function at `0x140095be0`. `--address 0x...`
  selects another one, `--length 0x...` gives its length where no `INT3` padding
  follows, and `--entry` selects the entry point of the image.
