# wat

The verified core of What-A-Browser: the parts of its style, script, paint,
text, theme and shell crates that decide something, written in Verus with
their contracts proved.

- `src/` is the library. Each module states what its functions return over
  mathematical models (sequences of characters, maps of bindings, views of
  buffers) and proves it, together with laws that relate several operations:
  inline styles whose declarations parse, render and parse again to the
  same list and lose exactly the removed ones, for every style text, and
  read back a value that was set (for every style that declared the
  property; for one that did not, when its declarations leave no bracket
  or quote open), `var()` substitution that
  terminates on self-reference, class lists that round-trip through the
  `class` attribute, a stable cascade order, tab ids that are never reused,
  colours that read back from the hex notation theme files store them in.
- `src/address.rs`, `src/image.rs` and `src/canvas.rs` call the `url` and
  `image` crates through a few trusted wrappers, each documented with what
  its contract claims.
- `app/` holds what works in floating point or needs serde: the numeric
  computed style, corner radii, blurs, image proportions, the painter (shapes,
  clips, gradients, shadows, backdrop filters) and the renderer that replays
  display lists onto the library's canvas, the theme model with its TOML
  files, and the font store, which asks `fontdb` and `fontdue` and leaves the
  choice of face to the library.
- `tests/` runs the library on concrete inputs.
