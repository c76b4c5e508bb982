# goose_mobile

The verified core of the goose mobile client: every decision the screens
make, written as functions with contracts and checked by Verus.

- `src/` is the library. Each module states what its functions return over
  mathematical models (`Seq`, `Map`, spec functions) and proves it; the
  `law_*` proof functions state the properties that hold across calls —
  what a fold keeps, what eviction leaves, what an answer undoes.
- `tests/` runs the library on concrete values.
- `app/` is a small command-line program around the library: reading and
  writing files, and the serde copies of the library's types.

The UI itself (Dioxus views, the event loop, the network clients) is not
part of this crate; what it decides is.
