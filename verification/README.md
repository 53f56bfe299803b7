# norgolith

The decisions and data of Norgolith, the static site generator for Norg
content, written in Verus. Every function of `src/` carries a contract;
Verus proves them all except those of the small wrappers marked
`#[verifier::external_body]`, which call `std::path`, `regex`, `semver`,
`serde_json`, `chrono`, `toml`, `blake3` and `tera` and whose contracts are
trusted as those crates' sources and documentation show them.

## Layout

- `src/` — the library.
  - `text`, `paths`, `pattern`: text helpers, `std::path` and `regex` behind
    trusted wrappers.
  - `meta_spans`: byte spans of the values of a `@document.meta` block.
  - `schema`, `hierarchy`: metadata values, field definitions, rules, and
    content schemas resolved by path and merged.
  - `check`: counting, JSON diagnostics and GitHub annotations of `lith check`.
  - `site`, `posts`: output paths, permalinks, assets, collections,
    categories, post order, loaded metadata and the sitemap.
  - `build_flow`: the order of a build's steps and the configuration test
    that must succeed before the public directory, the cache or a plugin
    is touched.
  - `links`: routes, link targets, backlinks and their signature.
  - `search`, `toc`, `shortcode`, `timings`: the search index, tables of
    contents, shortcode islands and the build timing report.
  - `dev`: request routing and file-change handling of the development server.
  - `plugin`: manifests, hooks, compatibility checks and hook replies.
  - `docs`, `explain`: the documentation server for assistants.
- `tests/` — tests of the library, run against the real outside crates.
- `app/` — the `lith plugin` commands and the documentation server's
  request loop (started when the program runs as `norgolith-mcp`). The
  `build`, `check`, `dev`, `init`, `new`, `theme` and `preview` commands
  are not there: they need the site configuration loader, the Norg
  converter (`rust-norg`), the build cache and the schema validator, which
  this project does not hold. Their decisions are in `src/` (`build_flow`,
  `check`, `dev`, `site`, `posts`). The documentation server's build and
  check tools run an installed `lith` program.
