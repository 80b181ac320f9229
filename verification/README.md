# yesterdays

The logic of the Yesterdays desktop app — bulk imports of archival photos
with their metadata, replacement of images by better scans, and sign-in to
an instance — as a library whose behaviour is stated in contracts and proved
with Verus.

- `src/` is the library. Each module states what its functions compute over
  mathematical models (`Seq`, `Map`, spec functions) and proves it; the laws
  that relate several functions are public proof functions next to them.
  - `sidecar`, `json`: the sidecar schema and the parse that accepts exactly it.
  - `preflight`: checking a folder of numbered image/sidecar pairs.
  - `imports`, `active`, `dispatch`, `done`: import batches, their state, and
    the dispatcher's decisions as a state machine.
  - `upload`: the slot/upload/commit exchange shared by imports and
    replacements.
  - `prepare`, `natural`, `paths`: authoring an import folder from arbitrary
    images, ordered the way a person reads file names.
  - `saved_folder`: a folder written by the save step passes the import's
    pre-flight.
  - `thumbs`, `hashcache`, `matching`: thumbnail caches and the greedy
    one-to-one matching of replacement files by perceptual-hash distance.
  - `imaging`: perceptual hashes and JPEG previews computed on the bytes of
    an image file, and the cache entries built from them.
  - `replacements`: replacement batches.
  - `oauth`, `digest`, `web`: the OAuth PKCE sign-in and its requests.
  - `clock`, `text`: timestamps and string helpers.
- `tests/` exercises the library on concrete values.
- `app/` is the Tauri shell: commands that read and write files, talk to the
  network and the browser, and hand what they read to the library, which
  computes and decides.
