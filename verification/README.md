# nmm_cli

The library behind the nix-mod-manager command line tool, verified with Verus.

- `src/lockfile.rs`: the lockfile (providers, their mods and files, with the hash and
  store path of each file) and the laws of adding and removing entries.
- `src/nexus.rs`: Nexus Mods download servers and server selection, the provider's
  settings, and the request addresses it builds.
- `src/nix.rs`: reading the output of `nix-prefetch-url --print-path`.
- `src/text.rs`: decimal rendering, substring search, URL space escaping, trimming and
  line splitting, each against a specification over character sequences.
- `src/strmap.rs`: a string-keyed map with distinct keys, viewed as a `Map`.
- `src/provider.rs`, `src/query.rs`, `src/modinfo.rs`: small shared types.

`app/` is the command line program: argument parsing, HTTP requests, the nix tools,
and reading and writing the lockfile as JSON.
