# alinery

The logic of the Alinery desktop app: its backup queue, playbook library and
imports, artifact comments and review drafts, task names, sessions and their
activity, account and credits state, model roles, the canvas document and the
wire formats it speaks. Every function in `src/` is verified with Verus against
the `requires` / `ensures` it carries; laws that relate several functions are
public proof functions named `law_*`.

Layout:

- `src/` — the verified library, one module per concern (`lib.rs` lists them).
- `tests/` — tests of the library on concrete values.
- `app/` — the plain Rust around it: files, processes, HTTP over curl, and the
  serde copies of the library's types.

Where the library talks to the outside (the playbook service, GitHub, the
daemons it closes), it goes through a small trait, wrapped in a handle
(`LoggedHttp`, `LoggedLookup`, `LoggedCloser`) that records each call and its
answer as ghost state. The contracts say, over that record, which requests are
sent and what each sequence of answers leads to.
