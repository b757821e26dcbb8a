# proxynexus-core

Card catalogs, decklist sources, collection archives and print options for
printing proxies of living card games (Netrunner, Arkham Horror, The Lord of
the Rings), with the logic verified by Verus.

- `src/` is the verified library: normalized titles and catalog records, the
  ArkhamDB and Lord of the Rings catalog builders, NetrunnerDB deck URLs and
  card requests, the collection file-name convention and the linking of files
  to catalog printings, CSV metadata, SQL text, bleed padding and the list of
  images a print run places. Contracts are stated over `Seq`, `Map` and `Set`
  models; `proof fn`s state the laws that span several calls.
- `tests/` runs the library on concrete values.
- `app/` is the `proxynexus` command line: HTTP downloads, SQLite storage,
  ZIP archives, image decoding and PDF drawing around the library.
