# neosurv

The game logic of a voxel survival game, written in Verus. Nearly every function in `src/`
carries a contract that says what it returns or changes, and Verus proves it; the two small
wrappers around std's `String::push` and `String::pop` in `chars.rs` are trusted.

- `world/`: chunks and block positions, terrain columns, greedy meshing of a chunk against its
  neighbours, streaming the world around the camera (which chunks are requested, built, taken in
  and dropped), and the queue of mesh uploads to the GPU.
- `gameplay/`: the hotbar inventory, loot and chests, structures of a new world, players' health.
- `saves/`: the index of saved worlds, scene slot names and file versions, scene entity
  identifiers.
- `frame.rs`: what each frame's keys do in the game: the start menu, the chat and its commands,
  the hotbar and the keys of play.
- `commands.rs`, `ui/`, `input.rs`: chat commands, the chat box, the start menu, text shown with
  the built-in font, cursor and menu modes, keyboard state.
- `engine/`, `gpu_data.rs`, `models.rs`: the engine shell's configuration and renderer choice,
  texture and mesh data for the GPU, material libraries named by OBJ sources.

`app/` is the program around the library: settings and save files on disk (TOML, RON), terrain
noise, the chunk worker threads, the ECS world, the editor panel, a session that feeds the
game's keys to `frame.rs` frame by frame and carries out what it hands back, and the engine
shell's frame loop (`run_for_frames`); there is no game window. Floating point stays there.
