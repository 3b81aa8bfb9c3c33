# GTA V coordinate lookup

Looks up the GTA V zone, the nearest road and a crossing road for a map
coordinate given on the command line (`x y z`, `x,y,z`, `vec3(...)`,
`vec4(...)`, `x=.. y=.. z=..`, JSON object or array).

## Layout

- `src/` — the verified library (Verus):
  - `text.rs`: characters, Unicode whitespace, trimming, splitting, case folding;
  - `number.rs`: the syntax of numbers, decimal text, and the order of `f64`
    values given as IEEE-754 bit patterns;
  - `coords.rs`: reading a coordinate from the command-line words;
  - `cli.rs`: options, output field selection, error texts;
  - `zones.rs`: which zone boxes hold a point, smallest first;
  - `roads.rs`: named road segments, the nearest road, a crossing road;
  - `report.rs`: the printed JSON document and selected fields;
  - `archive.rs`: reading the node data entry out of its zip archive.
- `app/` — the program: command line, data files, JSON reading with serde,
  and the floating-point geometry (distances, box volumes, number text).
- `tests/` — tests of the library.

## Data

The program reads `data/zones.json` and `data/nodes.zip` (with a
`nodes.json` entry) from a `data` directory beside the executable, or else
from `data/` under the working directory.
