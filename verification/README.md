# pdfind

The core of PDFind, a desktop tool that searches the text of PDF files, keeps a
knowledge base of documents and recordings, and turns videos into PDF notes.

- `src/` is the library, written in Verus: every function carries a contract that
  Verus proves. It decides what the application does: the search matcher and the
  hits it reports, the single-task guard, the folder listing and its order, text
  chunking, rank fusion, the model catalog and downloads, the recogniser arguments
  and the reading of their output, the LLM endpoints and prompts, and the layout of
  the generated PDF.
- `app/` is the application layer in plain Rust: files, processes, HTTP, SQLite,
  pdfium and PDF rendering, calling the library for each decision.
- `tests/` runs the library on concrete inputs.

## Design notes

- **String maps.** The organizer's settings (`organizer::StrMap`) are a list of
  key-value pairs whose view is a `Map<Seq<char>, Seq<char>>`, in place of a
  `HashMap<String, String>`. vstd specifies `HashMap` through its keys' views, but
  with `String` keys the available specifications did not let a contract say what
  the map holds (not even its length after one `insert` could be proved), so a
  contract over a hash map would have said nothing of its contents. `insert`
  appends a pair and a later pair wins over an earlier one for the same key;
  `law_last_write_wins` proves that a read gives back the last value written.
- **Ingestion.** `ingest::ingest_plan` is the sequence of database writes that stores
  a document; `app/` performs them in order against SQLite. `law_ingest_replaces`
  proves, on a model of the tables, that the writes leave exactly one document per
  kind and source path, with its chunks in order.
- **Page cache.** `cache::cache_entry` and `cache::cache_lookup` decide what is stored
  and what is served; `law_cache_round_trip` proves that a read gives back the stored
  pages exactly while the file's size and modification time are unchanged.
- **Paths.** `text::join_path` joins paths as the platform does, with the platform's
  separator; callers pass `cfg!(windows)`.
