# capture

Cursor tracking for PipeWire screen capture, verified with Verus.

- `src/state.rs`: the cursor state of one stream. `CursorState::resolve` folds each
  metadata update into the cursor's identity, kind and last visible position and
  reports the cursor for the frame; `map_cursor_metadata` moves positions into the
  cropped, transformed frame. `src/state_laws.rs` states what every update keeps.
- `src/bitmap.rs`: normalization of cursor bitmaps into RGBA and their 24 by 24
  signature.
- `src/classifier.rs`: classification of bitmaps against theme cursor images, with
  scores compared as exact rationals (`src/wide.rs` holds the 192-bit products);
  `src/classifier_laws.rs` states its laws.
- `src/theme.rs`: theme settings (`settings.ini`, `kcminputrc`, `gsettings` output),
  the icon names searched for each kind, and theme images read from Xcursor files
  through the `xcursor` crate.
- `src/text.rs`: the portable cursor id `pipewire:{scope}:{id}`.
- `app/`: environment, file and process access, the PipeWire format conversion, and
  the floating-point normalized coordinates.
