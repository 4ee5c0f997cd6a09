# avio

The editing model of a video toolkit, verified with Verus: timelines, tracks, clips, effects and
markers; the commands that edit them; and the decisions of export, preview and GPU compositing.

## Layout

- `src/` is the library. Verus proves every public function against its contract, and takes one
  thing on trust: that another pointer to a shared value points to that value (`filter::share`).
  - `float/`, `time`, `ids`: binary floating point over bit patterns, spans of time, identities.
  - `filter`, `effect`, `clip`, `track`, `marker`, `timeline`, `keys`: the document.
  - `edit`, `editor`, `validate`: commands on it, undo and redo, advisory checks.
  - `derive`, `transition`, `scene`, `render`: what a document becomes for preview and export.
  - `gpu`, `gpu_compositor`, `gpu_transition`, `gpu_export`: what the GPU takes over of it.
  - `laws`, `lineage`, `seating`: what holds of every document and every edit, of every line of
    versions, and of every session.
- `tests/` runs the library on concrete values.
- `app/` performs what the library asks for, through traits for decoders, filter graphs,
  encoders and the GPU, and holds the stored forms of the model's values.

## What a document guarantees

- An edit never changes its input, and a command that fails changes nothing.
- Clip, track and marker ids are unique within a document. A clip id or a track id is never
  handed out twice in a session, not after an undo either.
- A batch is its commands one after another, or nothing.
- Preview and export come from one derivation: an export layer is the preview layer with its
  steps in time put before it.
- The GPU maps a frame as a whole or leaves it to the CPU; no step of a chain is dropped.

## Numbers

A number with a fraction is its bit pattern. Sums, products, quotients and conversions are
integer arithmetic, proved to give the number of the format nearest to the exact one, ties to
even. Values of keyframe tracks at a time are asked of the caller.
