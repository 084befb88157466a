# skills_manager

A library for managing AI agent skills (directories holding a `SKILL.md`),
written in Verus: every function in `src/` carries a contract that the
verifier proves, except the seven trusted wrappers around outside code,
whose contracts are taken as given:

- `create_skill::new_uuid` (`uuid::Uuid::new_v4`, formatted);
- `identity::uuid_parse_canonical` (`uuid::Uuid::parse_str`, then
  `hyphenated`), with the name `uuid_canonical` for its result;
- `download::url_encode` (`urlencoding::encode`);
- `github_sync::sha1_of` (`sha1::Sha1::digest`), with the name
  `sha1_digest`;
- `github_sync::to_lowercase` (`str::to_lowercase`), with the name
  `lowercase`;
- `text::string_of` (collecting characters into a `String`);
- `dir_names::is_alphanumeric` (`char::is_alphanumeric`), with the name
  `alphanumeric`.

- `src/` — the verified library:
  - `identity`, `document`, `create_skill`, `editing`: the identity (UUID),
    frontmatter and body rules of `SKILL.md` documents;
  - `discovery`, `importing`, `linking`, `dir_names`: discovering skills,
    importing them into the store, linking them into IDE skill directories
    and adopting IDE skills (step functions drive each import, link and
    adoption), the path checks of uninstalls, and the directory names
    skills are stored under;
  - `packages`, `library`: package groups and favorites/tags, with the
    invariants each stored file keeps;
  - `download`, `updates`, `market`, `clawhub`, `skillsmp`, `skillssh`:
    download sources, updates, and the search results of online markets;
  - `recovery`, `backup`, `backup_run`, `github_sync`: recycle bin and
    history, the GitHub backup decisions, and the order of one upload (a
    step function: no content is uploaded before the remote backup is found
    to be this app's own);
  - `translation`: translation settings checks;
  - `text`, `types`: text helpers and the shared request/response values.
- `tests/` — tests of the library on concrete values.
- `app/` — the commands around the library: file system, network, the `gh`
  command line, JSON storage and the background backup worker.
