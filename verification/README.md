# giter

Statistics over the history of a git repository: commits per day, week and
month, code churn per day, contributors by name and by e-mail domain, file
types and line counts (code, comments, blank) of the HEAD tree.

- `src/` is the verified library (Verus). It builds the commit, change and
  snapshot records from the values a repository walk reads, runs the
  analyses, and keeps the application state (settings, selected
  repositories, scan results) and the text of the repository browser. Every
  public function states what it returns in its contract; `calendar` states
  the proleptic Gregorian calendar that chrono implements.
- Paths reach the library written with `/` (the program rewrites Windows
  paths so); what `Path::file_name` and `Path::extension` give is stated for
  paths that every platform reads alike (`portable_path`).
- `app/` is the command-line program around it: it reads repositories with
  git2, loads and saves the settings, prints the analyses and writes CSV and
  JSON files.
- `tests/` runs the library on concrete values.

Usage: `giter <repo-path> [--json FILE] [--csv-dir DIR]`.
