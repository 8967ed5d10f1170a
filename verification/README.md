# pigeon

The wire formats, codecs and protocol rules of a Minecraft Java Edition
server (game version 1.21.11), written in Verus with their contracts proved.

## Layout

- `src/` — the verified library.
  - `buffer`, `codecs`: byte cursors and VarInt / VarLong.
  - `identifier`, `uuid`, `math`: resource locations, UUIDs, block and
    chunk coordinates.
  - `nbt`: the NBT value tree, its reader and writer, and Java's modified
    UTF-8 (through `cesu8`).
  - `protocol`: packet bodies of every state, the packet id tables, and the
    frame codec (`codec`: framing, zlib through `flate2`, AES/CFB8 through
    `aes` and `cfb8`).
  - `registry`: ordered registries (through `indexmap`), the `RegistryData`
    body codec, and the vanilla wire registries built from the report.
  - `data`: lookups in the data-generator reports.
  - `text`, `config`, `world`, `inventory`, `plugin`: chat components and
    colors, the server configuration, chunk sections and region files,
    item stacks, the plugin host trait.
  - `server`: the connection's decisions — handshake, status, login,
    configuration and play — and the player registry.
- `app/` — the server around the library: the Tokio accept loop and the
  connection tasks that carry out the library's decisions, the shared
  player registry with its broadcast channels, JSON forms of the library's
  types, the data reports read from disk, and floating-point geometry.
- `tests/` — tests of the library.

## Laws

Among what the library proves: VarInt, VarLong, UUID and identifier text
read back as written; an NBT root, a `RegistryData` body and an
uncompressed frame read back as written, leaving what follows them;
AES/CFB8 decryption undoes encryption across any split of the stream;
a zlib body read back gives the data compressed; registry indexes lead back
to their entries; compound and player-registry inserts and removals act as
map updates.
