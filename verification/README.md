# Hurlin

Hurlin runs hurl files that import one another. It calls hurl on a root file, and serves, on a local
port, the requests that running files make to it through injected variables:

- `GET {{hurlin-import}}./file`: run another file, wait for it, and get what it exported. With
  `?nocache` the file is run whatever the cache holds, and the cache is left alone.
- `GET {{hurlin-async}}./file`: the same without waiting; the answer is `{"await": "<key>"}`.
- `GET {{hurlin-await}}<key>`: wait for a file started that way. A key is good once, and only for the
  task that it was given to.
- `POST {{hurlin-export}}`: hand a body and its content type to whoever imports this file.
- `GET {{hurlin-readfile}}./file`: the contents of a file.
- `GET {{hurlin-noise}}`: sixteen random hexadecimal digits, as `{"noise": "<digits>"}`.

Files are run once: later imports are answered from the cache, and an import of a file that is being
run waits for it. An import that would close a cycle is refused, and the chain of imports that closes
it is reported.

## Layout

- `src/` is the library, verified with Verus: the state of a session, the decision on each request,
  the import graph and its freedom from cycles, the command line of hurl, and the texts around them.
  `src/laws.rs` states what holds from one request to the next.
- `app/` is the program around it: arguments, files, processes and the HTTP server.
- `tests/` are the tests of the library.

The functions marked `external_body` and the `assume_specification` items call or describe functions
of other crates and of `std`; their contracts are trusted, and each says what it takes for granted.
