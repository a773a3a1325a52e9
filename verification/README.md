# pixel_shift

Merging bursts that a camera took while it moved its sensor by whole or half pixels.

The library finds bursts among files, checks what a merge is asked to do, and merges frames: by
mean, median or trimmed mean, by steering kernel regression, by fusing raw mosaics, or by drizzling
them. Its functions are verified with Verus against their contracts, except for the wrappers listed
below.

- `src/` holds the library. Floating-point values are carried as bit patterns (`float`), and rounded
  arithmetic is done by a unit that the caller provides. Contracts say which operations are applied
  to which values, in which order.
- `tests/` runs the library on the machine's own floating-point instructions.
- `app/` is the application side: files, events, developed images and the graphics processor.

Modules of the library:

| module | what it holds |
|---|---|
| `float`, `order`, `grid`, `text`, `paths`, `frame` | values, sorting, positions, texts, paths and images |
| `metadata` | maker notes and burst detection |
| `raw`, `frame_extraction`, `cfa_fusion`, `drizzle`, `noise_model`, `mosaic_merge` | raw mosaics |
| `basic_merge`, `alignment`, `motion_detection`, `skr_fusion`, `gpu_fusion`, `skr_merge` | developed frames |
| `pipeline`, `progress` | requests, results and progress |

Calls into other crates and into parts of the standard library go through small wrappers, whose
contracts are believed and not proved. Each says in its comment what it claims of the function it
calls:

| wrapper | what it calls |
|---|---|
| `raw::decode_raw`, `raw::search_decoder`, `raw::flat_colors` | `rawler` |
| `metadata::maker_note` | `exif` |
| `pipeline::encode_png` | `image` |
| `pipeline::base64_text` | `base64` |
| `gpu_fusion::memory_bytes`, `gpu_fusion::memory_words` | `bytemuck` |
| `pipeline::lowercase` | `str::to_lowercase` |
| `paths::parent_text`, `paths::stem_text`, `paths::name_text`, `paths::join_text` | `std::path::Path` |
