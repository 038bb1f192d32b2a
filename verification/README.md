# dbus_codegen

Generates Rust bindings from D-Bus introspection XML: for each interface a trait, the
trait's client implementation over a `dbus` connection path, and, where a method type is
given, a function that builds the interface for a `dbus` object tree.

The library under `src/` is verified with Verus:

- `names`: camel case for type names, snake case for method and argument names.
- `sig`: D-Bus type signatures to Rust types (the type codes are checked with
  `dbus::arg::ArgType::from_i32`).
- `model`: arguments, methods, properties, signals, interfaces, and their models.
- `emit`: the text of traits, client implementations and object-tree functions, each
  specified exactly over the models.
- `xmlsrc`: the events of the `xml-rs` reader, reduced to what generation reads.
- `generate`: the state machine over the events, and `generate` itself.
- `laws`: properties that hold across these functions.
- `composition`: properties of whole event sequences: documents concatenate, signals do
  not matter, and without a method type only the object-tree functions are missing.

`app/` gives `generate` the boxed error type of its callers.
