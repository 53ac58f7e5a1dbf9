# secure_classifier

A service that runs an image classifier for several users, each request in
a sandbox of its own (private namespaces, a private root holding only the
model files and the requested input, and a system-call filter that fails
`socket`), together with a classifier that probes whether the sandbox holds.

- `src/` is the verified library: reading the request list, the decimal
  text of numbers, lines and paths as bytes, and the plans that say which
  steps serve a request and which probes the classifier makes.
- `app/` is the program: it reads and writes files, clones the child
  process, mounts, switches the root, installs the filter and runs the
  plans that the library computes.
- `tests/` runs the library on concrete requests, paths and texts.
