# omo_switch

The logic behind OMO Switch, a manager for the model settings of OpenCode and
oh-my-openagent, as a library verified with Verus, and a small command-line program
around it.

- `src/` — the verified library.
  - `json.rs`: a JSON value model and the member lookups and edits the rest relies on.
  - `text.rs`, `order.rs`: trimming, prefixes, lower-casing and code-point order.
  - `paths.rs`: where OpenCode and OMO keep their files, from the environment.
  - `providers.rs`: provider defaults, the provider list and its classification,
    stored API keys, provider settings and custom providers.
  - `models.rs`: custom models of a provider and their token limits.
  - `agents.rs`: the model and variant of OMO agents and categories.
  - `install.rs`, `versions.rs`: where OpenCode and oh-my-openagent are installed,
    version comparison and update commands.
  - `process.rs`: child-process creation flags.
- `tests/` — tests of the library on concrete values.
- `app/` — the command-line program: environment, files, child processes and HTTP
  requests, and the serde forms of the library's types.
