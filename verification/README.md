# bsr

A command-line tool for Bisheng projects: it records the projects found
under a directory, lists them, shows the git state of the component
repositories under a project's `originSource`, and compares two project
trees, writing the differences to a report.

The library in `src/` holds the logic, each function with a contract that
Verus proves:

- `paths`, `order`, `text`: a model of Unix paths, their order and equality
  by components, and the text operations built on it.
- `scan`: the directory scan as a state machine that asks its caller about
  the file system, and the trees and lists built from what it was told.
- `projects`, `types`, `utils`, `storage`: the project tree, its flattening
  into a selection list, and where the program keeps its files.
- `commands::waiting`, `commands::compare`, `commands::status`, `diff`,
  `styled`: the waiting area of `compare`, the comparison plan and report,
  the status report, and styled text for the terminal and for files.

`app/` is the program around it: argument parsing, the file system, git,
interactive prompts and printing.
