# hermes

The core of Hermes, a desktop HTTP client that keeps its workspace in plain
files: requests as YAML under `collections/`, environments under
`environments/`, secrets in the OS keychain, and a history of sent requests
as JSON lines.

`src/` is a library verified with Verus. It holds the rules of the
application with their contracts:

- `paths`: joining workspace-relative paths safely, group names, the files of
  a workspace;
- `workspace`, `tree`: what each operation on requests, groups and
  environments reads, writes, moves or refuses, and the collections tree;
- `variables`: `{{ name }}` placeholders and their replacement by environment
  values;
- `imports`: cURL commands, Postman collections and OpenAPI documents turned
  into requests;
- `http_client`: which rows, headers, authentication and body a request sends,
  its URL and the rows of a response;
- `secrets`, `history`: keychain accounts, the list of stored secret keys,
  and the history file;
- `text`, `order`, `documents`, `models`, `error`: strings, ordering, parsed
  JSON and YAML documents, the data model and its errors.

Public proof functions state the laws that hold across operations (for
instance `workspace::lemma_write_read_same_file`,
`secrets::lemma_store_then_delete`, `history::lemma_latest_entry_wins`,
`imports::lemma_slug_twice`, `imports::lemma_import_written_back`).

`app/` is the unverified shell around it: file and keychain access, the
network exchange, and the serde forms the front end and the files use.
