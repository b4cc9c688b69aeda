# texture_processor

A verified library of the rules behind a texture-processing command-line
tool and the world-building systems of a globe renderer, written in Verus.

`src/` is the library; every function there carries a contract that Verus
proves:

- `bytes`, `mask`, `pointwise`, `binary_op`, `concat`, `layout`, `format`,
  `signature`, `text`, `error`: byte arithmetic on pixels, mask validity,
  the streaming and buffered row combinators of the image operations, the
  choice of output encoding, header sniffing, and the exact error messages.
- `tiles`, `batches`, `route_index`, `routes`, `chains`, `hubs`, `lights`,
  `placement`, `raster`: terrain tile arithmetic, the per-tile batch
  bookkeeping of the instancing systems, the coarse route index, route
  chunking, waypoint chains, hub ranking, city-light clustering, building
  placement and raster lookups.

`app/` is the command-line program around the library: argument parsing,
image decoding and encoding, file I/O, and the floating-point filters.

`tests/` runs the library on concrete values.
