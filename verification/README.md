# mcupdate

The rules of an auto-updater for Minecraft clients and of the manager that
publishes its versions, verified with Verus.

- `src/` holds the verified library: deletion rules and their stored form,
  version metadata and its JSON form, directory diffs, pack planning and
  previews, version combination, external download sources (CurseForge,
  Modrinth), the client's bootstrap manifest and segmented downloads, the
  updater window's state, release artifacts and the private update protocol.
  Calls into outside crates (hashing, encodings, JSON text, Markdown parsing
  and rendering, HTML sanitizing) stand behind small trusted wrappers whose
  contracts state or name what the crate computes.
- `tests/` runs the library on concrete values.
- `app/` holds what Verus does not see: file I/O, the serde forms of stored
  records and the conversions between them and the library's types.
