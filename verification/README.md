# mgmt

The rules of a database server's management console, written in Verus: what the
console decides stands in functions with contracts, and Verus proves each
function against its own. Quotients that are shown as decimal fractions are made
by the server around the library.

- `src/` is the library. Its functions take plain values (the row that was read,
  the header that came, the time it is) and give plain values back (the answer,
  the rows to write, the note for the log). What holds of several of them at once
  stands beside them as a public proof function named `law_...`.
- `app/` is the server around the library: routes, queries, files and background
  tasks. What the rest of the server has to supply stands there in the trait
  `Host`.
- `tests/` runs the library, with the outside crates that it calls.

Some of the modules:

| Module | What it decides |
|---|---|
| `admin_team`, `admin_tokens`, `admin_pat`, `admin_mcp_pat`, `pat_evict` | who is on the team, which tokens they hold, and what has to be cleared when one is revoked |
| `oauth_server`, `oauth_clients_admin` | consent, codes, tokens and their rotation, clients |
| `oauth_login`, `routes`, `locale_layer`, `frame_guard` | signing in, and what stands before every page |
| `cli_device` | the sign-in of the command line |
| `audit`, `audit_note` | the log: its files, its pages, what is noted in it |
| `browse`, `collection_list`, `rpc_admin`, `functions_admin`, `cron_admin` | the pages of one tenant |
| `public_files`, `signed_bytes`, `backups` | stored files, signed links, snapshots |
| `docs`, `svg_charts`, `html`, `script_json`, `i18n` | text on its way to a browser |
| `text`, `url`, `json`, `clock`, `sorting`, `rounding`, `paging`, `crypto` | what the others stand on |

Calls into outside crates stand behind small functions marked
`#[verifier::external_body]`, each with a comment that says what is believed of
the call. A result that takes pages to state has a name (`sha256_digest`,
`md_events`, `json_document` and the like), and a second function takes the
result as an argument, so that what follows the call is proved for every value
of it.
