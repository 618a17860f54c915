# davserv

A small JSON API in front of a Baikal CardDAV addressbook.

- `src/` is the verified library: vCard parsing and writing (`vcard`), the
  CardDAV URLs, request bodies and response handling (`dav`), reading
  WebDAV multistatus bodies (`multistatus`, over quick-xml through the
  trusted item of `xml`), the API's listing order and error answers
  (`api`), and the configuration types (`config`). `text` holds the
  character-sequence operations they share, each with its specification.
  `vcard_laws` proves that escaping round-trips, what escaped values and
  written vCards look like, how unfolding and the name/value split work,
  and that reading back the vCard written for a contact gives the contact
  as written: name parts must hold no `;` (the N value separates them
  with it), and empty optional fields read back as absent.
- A listing keeps every resource the PROPFIND reports as a vCard: an href
  ending in `.vcf`, or a `text/vcard` content type. Single contacts are
  fetched, updated and deleted at `<uid>.vcf`.
- `app/` is the server around it: configuration files, HTTP with reqwest,
  routing with axum, JSON with serde.
- `tests/` exercises the library on concrete values.
