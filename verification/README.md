# scene_graph

The retained scene of a GPU user interface. Verus proves which primitive is
drawn above which, what a replayed range of a cached view becomes, how a
finished scene is cut into draw calls, which pixels a retained motion damages,
and what the timing records of tasks and frames report. The calls into outside
crates and into std that Verus does not read are believed, not proved: each is a
function marked `external_body`, with a comment that says what is claimed of it.

* `src/` is the library. Each type has a mathematical model (its view); the
  contract of each function is stated over the models, and the properties that
  span several functions are public proof functions.
* `tests/` runs the library on concrete values.
* `app/` is what surrounds it in a process: floating-point coordinates, the
  clock, the records that threads share, the serialized forms, and the
  surfaces of the platform.

Coordinates are of any type that implements `number::Scalar`. Two properties of
such a type are asked for where a law needs them: `commutative_ring` (sums and
products do not round) and `ordered_numbers` (differences do not round).
`number::DevicePixels` has both.
