# kaesar_view

The view layer of an e-reader, verified with Verus.

- `src/geom.rs`: points and half-open rectangles, with their laws.
- `src/colour.rs`, `src/input.rs`: colours and touch input.
- `src/framebuffer.rs`, `src/context.rs`: what views draw with (the
  `Framebuffer` and `Font` traits that devices implement). A display is
  described by the colours of its pixels, the refreshes asked of its panel
  with their answers, the steps it took (pixels set and waits, in order),
  and how it draws rounded rectangles; a font by how it lays out and draws
  texts. The views' drawings and the rendering passes are stated over these
  descriptions, which a display or font implemented outside verified code
  does not keep.
- `src/view/mod.rs`: menu entries, events, the `View` trait, the tree of
  views, the state each view holds, and the delivery of events through the
  tree.
- `src/view/renderer.rs`, `src/view/merge.rs`: the rendering queue, the
  rendering pass and the merging of the rectangles it draws.
- `src/view/{button,clock,filler,image,results_label}.rs`: views.
- `src/canvas.rs`, `src/fxmap.rs`: window arithmetic, the inversion and
  shift of a region read back from a window, and the hash maps of the
  renderer.
- `src/startup.rs`: the decisions taken when the reader starts.
- `app/`: an SDL window that serves as framebuffer on a desktop.
- `tests/`: tests on concrete values.
