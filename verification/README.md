# trka

A small racing game on roads from OpenStreetMap. `src/` is its verified core: reading maps,
laying out roads and buildings, marking a route, building the meshes of land, buildings and the
track, the vehicle's controls, and the conversation with the audio engine. `app/` is the program
around it: windows, files, the network, and floating-point arithmetic.

Numbers with a fraction are IEEE 754 bit patterns in `src/`. The library compares, selects,
negates and moves them; `app/` computes what has to be rounded and hands it in.

| module | what it decides |
| --- | --- |
| `single`, `geometry` | comparing and selecting numbers; points, rings and boxes |
| `text`, `cli` | numbers and lists in texts; the command line |
| `xml`, `osm` | OpenStreetMap documents, roads, buildings, the nearest road |
| `geojson_text`, `world` | land and urban areas |
| `fetch` | files that are downloaded and kept |
| `mesh`, `track` | triangle meshes; the spline, the road surface and the fences |
| `world_map`, `editor`, `drive` | the three screens |
| `audio` | the engine's sound file and its playback |
