# openaec-cloud

Shared Nextcloud cloud-storage library for OpenAEC tools, verified with Verus.

Reads come from a read-only mount of the Nextcloud data volume; writes go
through the Nextcloud WebDAV API. Projects use a container layout with
`.wefc` manifests; the older `99_overige_documenten/{tool_slug}/` layout is
still read. Each tenant has its own Nextcloud instance.

## Layout

- `src/` is the verified library. Every function there has a contract that
  Verus proves:
  - `container`: output directories per tool;
  - `timestamp`: calendar arithmetic and ISO 8601 text;
  - `paths`, `urls`, `text`: path joining, percent-encoding, string order;
  - `sorting`, `seqs`: the stable sort by name and its laws;
  - `manifest`: the `.wefc` manifest model (add/update/remove by guid, finds);
  - `tenant`: tenant configuration and the registry;
  - `volume`: what a directory listing of the volume mount yields, path
    resolution with traversal protection;
  - `webdav`: every WebDAV URL and path, the meaning of every response
    status, and the fallback steps between the new and the legacy layout;
  - `propfind`: reading a PROPFIND multistatus body;
  - `lib.rs`: the cloud client and the merge of volume and WebDAV listings.

  Disk reads (listing a directory, reading a file, the directory and file
  tests, canonicalizing a path) are passed in as closures, so the contracts
  say exactly which path each one is asked about and what is done with its
  answer. Calls into outside crates that only compute (`urlencoding`,
  `serde_json` field lookups, `uuid` formatting, `getrandom`) sit behind small
  trusted wrappers whose contracts are documented beside them.

- `app/` is the unverified shell: file-system access, loading `tenants.json`
  and the environment, (de)serialising manifests with serde, and sending the
  HTTP requests with reqwest. It decides nothing itself: it hands each answer
  to the library's step functions.

- `tests/` runs the library on concrete values.
