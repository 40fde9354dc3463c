# plz

The core of the `plz` package manager, written in Verus.

- `src/` is the verified library: versions, version requirements and ranges
  with their negotiation, dependency kinds and the text and byte encodings
  that the package database stores, package metadata from plz servers and
  APT control files, the planning of installs, removals, upgrades and
  unbinding over the installed records, and the decisions of the command
  line (argument pairing, confirmation answers, the settings lock).
- `app/` is the program around it: command-line dispatch, the settings
  file, the SQLite database, downloads and the shell scripts that packages
  run.
- `tests/` runs the library on concrete values.
