# korangar (verified core)

The logic of the korangar Ragnarok Online client that does not need a window,
a GPU or a network connection, written in Verus with its behaviour stated in
`requires`/`ensures` contracts and proved.

- `src/` — the verified library:
  - `des`, `mixcrypt`, `native`: the two block decryptions of GRF archive
    files (the bit-sliced mixcrypt scheme and the byte-table DES of the
    archive reader), proved against one mathematical DES round;
  - `archive`, `file_table`, `native_archive`: the GRF header, file table and
    stored files (decryption followed by zlib decompression), archive paths
    and the asset folder's file names;
  - `color_span`: splitting text at `^RRGGBB` color codes;
  - `skill_casting`, `inventory`, `windows`: skill targeting, continuous
    skills, buffered actions, the hotbar, the inventory and the cached texts
    and decisions of the skill tree and stats windows;
  - `chat`: what a typed chat line does;
  - `effect`, `animation`, `map`, `gamefile`, `resources`, `world`, `text`:
    smaller loaders and the plain types they share.
- `tests/` — tests of the library on concrete values.
- `app/` — what runs around it: archives read from and written to disk, and
  the floating-point timing of skill sounds.
