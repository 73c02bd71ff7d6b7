# labt

The logic of LABt, a lightweight Android build tool, as a Verus library:
Maven version requirements and the constraints they build up, the pom,
`maven-metadata.xml` and `repository.xml` readers (state machines over the
XML events that `quick_xml` reads from the document text), the files LABt reads and writes (`Labt.lock`, `installed.toml`,
`plugin.toml`, `repository.toml`, cached project properties), the
dependency tree walk (a state machine that decides each step and asks for
the poms and versions it needs), the SDK manager's choices, and the plugin
loader with where plugins are kept and which plugins a build runs, in what
order.

- `src/` is the verified library. Each public function states in its
  contract what it returns; the laws that relate several functions (what a
  file reads back of what was written, the order of resolvers, version
  selection) are public proof functions next to the functions they speak of.
- `tests/` runs the library on concrete values.
- `app/` is the `labt` command around the library: argument parsing,
  files, network, git, Lua and archives.

Calls into other crates (`version_compare`, `toml_edit`, `fuzzy_matcher`,
`regex`, `sha1`, `quick_xml`, and the `url` parser that `reqwest` re-exports) go through small trusted wrappers, each documented with
what its contract claims of the crate.
