# parcel

A user-space package manager for Linux desktop applications and developer
tools, with a cellar layout and repository-driven binary installs.

- `src/` is the library, verified with Verus: version ordering and upgrade
  planning over delta chains, repository configuration and indexes, archive
  path rules, install actions and exposures, delta computation, build
  manifests, checksums and on-disk encodings. Each public function states what
  it returns in its contract; the laws that span several functions stand as
  public proof functions.
- `app/` is the `parcel` command: argument parsing, files, archives, scripts
  and downloads, handing plain values to the library and acting on its
  answers.
- `tests/` runs the library on concrete values.
