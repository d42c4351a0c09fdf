# aube

The decisions of the aube package manager, as a library that Verus proves: what `.npmrc`
files and the environment configure, which registry, HTTP client and credentials a request
uses and when it is tried again, where a packument is taken from and which version of it is
chosen, what `aube add` does and undoes, how workspaces are planned and their lifecycle
scripts ordered, what is written to `package.json` and to the workspace file, and how aube
installs other versions of itself.

- `src/` is the library. Contracts speak of views (`Seq<char>`, `Map`, plain models); public
  `proof fn`s state what holds across functions. What other crates compute (semver, JSON,
  YAML, URLs, base64, hex, relative paths, plurals), and how the platform reads paths, is
  called through small wrappers whose contracts say what is relied on.
- `app/` does what the library decides: command line, files, processes and the network.
- `tests/` runs the library with the crates it calls.

What alternates work and decisions is a state machine here: `add_project`, `add_filtered`,
`packument_fetch`, `retry` and `self_download` say what to do next, `app/` does it and
reports how it went.
