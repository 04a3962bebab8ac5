# line_backup_native

A verified core for browsing and slimming iOS LINE app backups (`.imazingapp`
archives, unpacked backup folders, or `Line.sqlite` alone).

- `src/` is the library, written in Verus. It holds the decisions of the tool:
  path and archive-name rules, the scan and recovery plans, attachment
  matching, cleanup plans and their accounting (including the keep-thumbnail
  rule), duplicate grouping and links, checks on written candidates, paging,
  HTML export of conversations, bounded request lines, and SHA-256
  fingerprints. Each public function states its result in `requires` /
  `ensures`, and laws that span several functions are public proof functions.
- `app/` is the command-line program around it: it reads backups and SQLite
  databases, walks folders, stores the catalog, and hands the library plain
  values.
- `tests/` exercises the library on concrete values.
