# heightmap

Turns heightmaps into Brickadia saves: pictures on the command line, or terrain that is sculpted,
painted, masked and split into layers by hand.

`src/` is the library. Every function states what it does in `requires` and `ensures`, and Verus
proves it:

- `map`, `color`, `files`, `load` read pictures into height and color maps;
- `opt` meshes maps into bricks, greedily or with a quadtree;
- `sculpt` holds the workspace: its edits and their history, paint, layers, and the conversion into
  bricks, whole, tiled or part by part;
- `zones` masks terrain with polygons, `units` writes heights in bricks and flats;
- `tiles`, `fetch`, `redact` choose, fetch and stitch map tiles without leaking tokens into errors;
- `save` builds worlds with the `brdb` crate.

Heights in meters are floating point; the library keeps them as bit patterns and computes on brick
units. What needs floating point, files, the network or a window is in `app/`.
