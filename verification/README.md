# Lienzo

A small Paint-like bitmap editor. The pixel engine with its history, the
document model (selection, clipboard, paste, crop, fill, picker, selective
eraser) and the settings tables form a library whose behaviour is stated in
contracts and proved with Verus. The egui program around it handles the
window, files and the clipboard, and the geometry of the drawing tools,
which is floating point.

## Layout

- `src/` — the verified library:
  - `color` — RGBA colors and composing translucent pixels over white.
  - `grid` — row-major pixel grids: reading, writing and copying rectangles.
  - `fill` — the 4-connected flood fill, proved to paint exactly the region.
  - `canvas` — the canvas with its undo and redo history by rectangles,
    flips, rotations, scaling and resizing, and the laws that tie them.
  - `doc` — the document: tools, colors and the floating selection (lift,
    move, commit, copy, cut, paste, crop, invert), with their laws.
  - `shapes` — shape and brush tags and the xorshift generator.
  - `lang` — translation tables read from JSON and the lookup.
  - `theme` — `#rrggbb` colors, both ways, and the grouping of themes into
    light and dark families.
  - `gesture` — the pointer's decisions: which press opens a stroke or
    lifts the selection, which release closes it, when a curve stays armed.
  - `session` — the recent-files list and the unsaved-changes guard.
  - `ui`, `view` — command tables and the zoom ladder.
- `tests/` — the library's tests.
- `app/` — the desktop program: egui interface, geometry and rasterizers in
  floating point, file and clipboard access.
