# OmaBeam

OmaBeam picks a window, a display or an area of a Hyprland desktop and shares it: as a
screenshot, as a live stream on the local network, or through the desktop portal. It can also
extend the desktop by a display that only exists in the stream.

The library under `src/` holds everything that decides or computes, verified with Verus:

- captured pixels: `rect`, `raster`, `pixels`, `decode`, `damage`, `frame`, `double`, `compose`,
  `codec`
- the Wayland side: `output`, `registry`, `session`, `capture`, `overlay`, `selector`
- Hyprland: `hypr`, `records`, `portal`, `dispatch`, `ipc`, `layout`, `desktop`
- video: `encoder`, `video`, `cast`, `live`
- the picker: `picker`, `actions`, `keys`, `preview`, `previews`, `view`, `settings`, `extend`,
  `destination`, `request`, `send`, `demo`, `widgets`, `wording`
- helpers: `single`, `text`, `strings`, `search`, `json`

Display scales, refresh rates and places on the map are single-precision numbers, computed by
their bits in `single`; the scale of a composed image is a double, held as a whole number of its
steps in `double`. Times are microseconds of a steady clock, handed in by the caller.

What is not proved stands in a few places: the image codecs in `codec`, the names of
pixel formats in `pixels`, JSON in `json`, two functions of the standard library in `text` and
one in `send`. Each of them names the function
it rests on and what it takes for granted.

`app/` is the ordinary Rust around the library: sockets, shared memory, threads, child processes
and windows. `tests/` runs the library, with a compositor played by the tests.
