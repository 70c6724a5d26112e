# bottlerocket_tools

Verified decision logic of several small Bottlerocket host tools, written in
Verus. `src/` is the library; every function in it carries a contract that
Verus proves. `app/` holds the program-level code that Verus does not see:
reading files, the command line and the environment, running processes, and
the serde and `which` glue. `tests/` runs the library on concrete values.

Modules of the library:

- `text`: characters and strings (prefixes, search, Unicode white space,
  splitting, decimal formatting, UTF-8 lengths).
- `infiniband`: capability masks and port GUIDs read from sysfs, with the
  hexadecimal reading of a `u32` and its round-trip law, and the order of
  devices by name.
- `resolver` and `cloud`: recognising settings sources (standard input,
  `base64:` data, `file:` and `http(s):` URLs, S3, Secrets Manager and SSM
  names and ARNs), the size limit on fetched bodies, and reading bodies as text.
- `apply`: turning a TOML or JSON settings document into the JSON of its
  `settings` table, and the requests that apply the changes in one
  transaction (one `PATCH` per document, then one commit).
- `brush`: the `sh -c '...'` pseudo-shell's decisions: splitting the command
  line by POSIX shell rules, allowing programs, and checking required (in
  positional order) and blocked arguments.
- `fips`: the FIPS checks over a map of system files.
- `schnauzer`: tool selection, API request URIs, and checking metadata
  responses.
- `models`: whether a configuration file is rendered.
- `whippet`: the D-Bus broker's arguments and the systemd ready notification.

Network fetches (HTTP, S3, Secrets Manager, SSM, the API socket), D-Bus policy
handling, and the registration of template helpers are outside the library.
