# gpui_animation

Style transitions for GPUI elements, with the bookkeeping proved in Verus.

- `src/` is the verified library. `interpolate` holds an element's animated
  `State` (origin, start, target and shown style plus a version counter) and
  the field-by-field blending rules; `transition` holds the registry that
  keeps, per element key, its state, the animation running on it and a
  restyle saved for later, and the two halves of a tick; `animation` holds the
  events that start animations. The easing curves are unit types here.
- `app/` is the GPUI front end: the element wrapper and its builder, the
  global registry and the ticker task, the easing formulas and the style
  blends. These compute on floats and the clock, and hand the library plain
  results (whether an animation reached its end, a blended style, a scaled
  duration).
- `tests/` runs the library on small concrete styles.
