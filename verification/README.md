# manzar

The core of Manzar, a desktop image viewer, as a Verus-verified library.

A viewer session opens an image sequence (the folder of one image, an explicit
selection, or a folder), moves through it with wrap-around navigation,
arranges it by one of four orderings, renames or trashes the current image,
and describes the current image to the frontend by an opaque id. The image
protocol serves only images the registry approved, and refuses oversized
files.

Layout:

- `src/` — the verified library. Every decision is a function over plain
  values (paths as text, probed file metadata, folder listings) with a
  contract; the laws that span functions are public proof functions.
- `tests/` — tests of the library, with in-memory folders standing in for the
  disk.
- `app/` — the desktop shell: filesystem probes, the settings file, the image
  protocol handler and the frontend commands, which hand the library plain
  values and act on its answers.
