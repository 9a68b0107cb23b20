# nextsync

A git-like command line client for Nextcloud: `init`, `clone`, `status`,
`add`, `reset`, `push`, `pull`, `remote-diff` and `config` over WebDAV.

- `src/` is the library, verified with Verus: paths and their normalization,
  the ignore rules, the remote URL forms, the object store (trees, blobs,
  `HEAD`, index, configuration), the status of the working tree, the push
  decisions, the reading of the server's XML answers, the walks of the remote
  tree, the clone, and the download plan.
- `app/` is the program around it: the command line, the files, the network
  (reqwest on tokio), the terminal (colours, progress bars, password prompt).
- `tests/` exercises the library.
