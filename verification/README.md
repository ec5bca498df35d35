# nail

The verified core of the nail knowledge base, written in Verus: the rules
the service applies to its inputs and the values it derives from them.

- `src/` is the library. Each module states its behaviour as `requires` /
  `ensures` contracts over spec functions and proves it; laws that relate
  several functions are public `lemma_*` proof functions.
  - text rules: `text`, `name`, `role`, `tag`, `email`, `version`, `search`
  - encodings: `hex`, `fmt`, `ids` (UUID text), `datetime` (ISO 8601 and
    RFC 3339), `time` (UUIDv7 timestamps)
  - digests and proof of work: `hash` (Ascon-Hash256), `pow`, `session`
  - uploads: `pdf`, `fixtures`
  - service plumbing: `error`, `response`, `config` (with the suites'
    `test_config`), `pagination`, `routes`, `mailbox`, `ratelimit`, `logs`,
    `tokens` (single-use expiring tokens)
  - request and response text: `multipart` (upload bodies), `extract`
    (highlight marks, download-URL tokens, policy action names)
- `tests/` runs the library on concrete values.
- `app/` holds the serde wire types around the library and converts
  between them and the library's own types, and the I/O around it: mail
  delivery, log pruning, upload requests, the browser's stored session.

Calls into outside crates (Ascon hashing, UUID parsing, JSON string
decoding, the clock) go through a few trusted wrappers, each documented
where it is declared.
