# vssh

`vssh` is an SSH wrapper that lets a remote shell command like `code .` open
your local VS Code through Remote-SSH.

The logic is a library, `src/`, whose behaviour is stated in contracts and
proved with Verus: reading the command line, quoting for the remote shell,
translating the arguments of a remote `code` command, checking requests,
building the Remote-SSH target, and deciding when SSH is tried again. The
functions named `law_...` prove what holds of the library as a whole, for
example that a shell reads a quoted value back unchanged, or that a request
without the session's token starts nothing.

The program around the library, with its processes, sockets and files, is in
`app/`. The tests are in `tests/`.
