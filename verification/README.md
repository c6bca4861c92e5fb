# bbtools

Readers for the data files of two Xbox mech games: archives, models,
textures, sounds, animations, stages, effects, cockpits and the game
executable itself. The library under `src/` is written in Verus: each
reader states, over the bytes it is given, exactly which inputs it takes,
what it returns for them and which error it gives otherwise, and Verus
proves the code against those statements.

Layout:

- `src/bytes.rs`, `src/decimal.rs`, `src/paths.rs`: little-endian reads
  and writes, decimal text, path helpers.
- `src/bbtools/`: the formats of the second title, and the ones both titles
  share (archives, models, textures, the executable, a small interpreter
  for the x86 code that fills the game's tables).
- `src/sbtools/`: the first title's models, textures and text.
- `src/titles/`: what unpacking each title decides (which files, which
  fixes, which records).
- `tests/`: tests of the library on small hand-built inputs.
- `app/`: the command-line program around the library: file and archive
  access, floating-point conversions (scaling, normals) and output files.

Values that the games store as `f32` are kept as their bits in the
library; the program converts them.
