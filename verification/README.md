# proxy_runtime

Decisions of the credential proxy that stands between a sandboxed command and the network:
what the command line and the profile settle on, which credentials tool sandboxes are granted,
how the proxy is configured and started, and which environment variables each program gets to see.

- `src/` is the verified library. It does no I/O. Where it needs work that only the host can do,
  a function stops with a request; whoever runs it answers and runs it again with one answer more.
- `app/` does that work: files, processes, the environment, the network.
- `tests/` runs the library on concrete values.
