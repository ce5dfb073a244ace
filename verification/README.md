# bevy_craft

The game logic of a voxel building game, written in Verus with its contracts
proved.

- `src/` — the verified library:
  - `block` — block kinds and their properties, grid positions;
  - `chunk` — chunk positions, block arrays, per-column climate, chunks;
  - `chunk_manager` — loaded chunks, the spatial grid of regions, the LRU
    cache of unloaded chunk data, priorities, distance queries, and the
    decisions of the loading and unloading passes;
  - `collision` — ground search over chunk columns and loose blocks;
  - `crafting` — recipes and the recipe book;
  - `inventory` — item stacks, hotbar and main slots, hotbar keys;
  - `world_gen` — how a terrain column is filled for a height and a biome;
  - `weather` — kinds of weather and their transitions;
  - `hotbar_ui` — the hotbar line, item icon paths and the conversion of
    16-bit UI textures to RGBA8.
- `tests/` — tests run against the compiled library.
- `app/` — a headless game loop on Bevy's ECS: input, spawning and
  despawning chunk entities, and the floating-point code: noise, heights and
  biomes, weather, the day/night clock, player movement and vital
  statistics, box collisions, and breaking and placing blocks.
