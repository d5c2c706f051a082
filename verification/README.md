# big

Shows text word by word in large letters drawn with characters, with
animated colour effects.

- `src/` is the verified library: colours and their terminal escape
  sequences (`color`, `palette`), the character/colour grid (`pixels`), the
  choice of effects (`effects`), and the decisions of the command line
  program (`cli`); `text` holds the string helpers they share.
- `app/main.rs` is the program around it: argument parsing, font
  rasterisation, the floating-point drawing of each effect, and terminal
  input and output.
- `tests/` runs the library on concrete values.
