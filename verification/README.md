# lazy-modman-cli

A minimalist Minecraft mod manager: a modpack is described once in a JSONC file
and installed for any game version from Modrinth.

- `src/` is the verified library (Verus): modpack and mod models, the choice of
  a compatible version, dependency collection, de-duplication by project id,
  name completion, the file-extension test for modpack files and the download
  retry policy, with their contracts and laws.
- `app/` is the command-line program: prompts, HTTP requests, file system work
  and the concurrent metadata round, each decision delegated to the library.
- `tests/` exercises the library on concrete values.
