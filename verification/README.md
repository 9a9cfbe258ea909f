# rlvgl_core

Verified runtime core of a retained-mode GUI toolkit for embedded targets.
The functions in `src/` are proved by Verus against their contracts; the
exceptions are three small wrappers around standard-library calls
(`String::push`, `Vec::try_reserve_exact`, `VecDeque::try_reserve_exact`),
whose contracts are trusted, and the user-implemented traits (`Renderer`,
`AssetSource`, `AssetRead`, `FontMetrics`, `CharFilter`, `ChangeListener`),
whose contracts are obligations on their implementations.

## Layout

- `src/` — the verified library:
  - `widget`, `style`, `renderer`, `event`, `interface`: geometry, colour,
    style and event vocabulary, and the drawing/driver traits.
  - `draw`: rounded fills, borders, widget backgrounds and gradients, each
    described as an exact plan of renderer calls.
  - `bitmap_font`, `icon_bitmap`, `font`: bitmap glyph drawing, font
    metrics, measuring, shaping and greedy line wrapping.
  - `edit`: the text-edit state machine (caret, gates, key handling).
  - `focus`: focus traversal over a node tree, with the single-focus law.
  - `anim`: tick-driven tweens, loop phases and completion, and the table
    of running animations (identifiers, cancellation, finished entries,
    dirty rectangles).
  - `asset`, `fs`, `image`: asset paths and sources, the LRU image cache and
    the asset registry.
  - `actor`, `direction`: identities, capability sets, slot planning, the
    descriptor checks of actor directions and constructor fields.
  - `shadow`: the shadow actor tree on which a batch of Stage directions is
    rehearsed (create, reparent, promote, reorder, delete, final limits) and
    the resolution of batch actor references.
  - `catalog`: type descriptors, the style registry, catalog validation and
    the checking of local-style directions.
  - `batch`, `atomic`: planning of plain and atomic Stage batches (actor
    groups, effects, touched actors, style changes, Creates bound to batch
    references, slot reservations), rehearsed before anything is touched,
    and the deletion preflight of a batch.
  - `stage`: the commit guard of a prepared batch and the property
    projection of an actor snapshot.
  - `endpoint`, `cue`: endpoint limits, batch admission and Safe Turn
    sequencing, and the bounded cue queue.
- `tests/` — executable tests of the library.
- `app/` — host-side code that stays outside the proofs: floating-point
  easing, the sampling of tweens and their apply callbacks on top of the
  library's animation table, and a filesystem-backed asset source.

## Not in this crate

The parts of the stage registry that act on live widgets are not part of
this crate: calling actor constructors, applying prepared mutations to the
object tree, handing style groups to the style cascade, layout state and the
requested-layout direction, text and resource accounting of the final
usage, and the tree position and styles of snapshots. They operate on the
object tree, layout and style-cascade modules, which this crate does not
contain; the numeric part and state identifiers of the style tables come
from those modules too, so the style registry is handed in by the caller.
What is decided from plain values is here: catalog and style-direction
validation, batch and atomic-batch planning, the commit guard, snapshot
property projection, the endpoint's admission and turn sequencing, with the
registry's own work left to the caller between `begin_safe_turn` and
`finish_safe_turn`.
