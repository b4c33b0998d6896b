# anny-rs

A parametric model of the human body: eleven phenotype scalars and a pose in,
a posed mesh out, and back again by fitting.

## Layout

- `src/` is the library, verified with Verus.
  - `data`, `text`: OBJ meshes and compressed blend shapes, read from bytes.
  - `phenotype`: the taxonomy of variations, and the weights of the blend
    shapes that a phenotype selects.
  - `models`: building a body from its sources, the skeleton, the pose
    parameterizations, the forward pass, presets and other topologies.
  - `kinematics`, `skinning`, `rotation`, `registration`: the geometry.
  - `parameters_regressor`: fitting pose and phenotype to a target mesh.
  - `anthropometry`, `face_segmentation`, `shape_distribution`, `utils`:
    measurements, parts of the body, sampling and mesh tools.
- `app/` is the command line: files, floating point, decompositions, random
  numbers and downloads.
- `tests/` runs the library on small bodies.

## Numbers

The library computes with any type of number. It takes the operations as
traits (`scalar` and the modules that use them), asks nothing of what they
return, and states in its contracts which operation was called on what. The
laws (`*_laws`, and the proof functions named `law_...`) say what this comes to
where the arithmetic is exact: that whole bodies come back when their parameters
are taken under another parameterization, that a body at rest keeps its vertices
with either way of skinning, that a bone points from its head to its tail,
that registrations are proper rotations, find the motion between two sets of
points and fit as well as any motion can, that a batch comes to what its elements
come to alone.
