# pydantic_sifr_core

The native core of `pydantic-sifr`, written in Verus: the functions in
`src/` carry `requires`/`ensures` contracts, and Verus proves every one of
them except those of the trusted wrappers described below.

- `src/` holds the library: checked arenas, input arenas built from native
  values and from JSON text, error values and their registry, the scalar,
  string, byte, numeric and temporal validators, the canonical sort of set
  items and mapping entries, canonical keys that deduplicate them, typed
  chain construction, model input checks and field order, serializer plans,
  subtree copies, and JSON Schema generation: a library `Schema` tree is
  written as a stream of JSON tokens (doubles as bit patterns), with an
  exact specification of every keyword. Calls into outside crates
  (bigdecimal, num-bigint, num-rational, regex, speedate, uuid, url, jiter,
  base64, sha2, hex, serde_json) stand behind small trusted wrappers whose doc comments
  say what each one claims.
- `src/engine.rs` is the validation engine over an owned `Schema`:
  `validate` checks the limits and the input, then `validate_node` walks the
  schema, choosing the lax or strict child by the effective strictness and
  the JSON or structural child by the input profile, wrapping nullable
  values, validating lists and tuples item by item with located errors up to
  the error limit, parsing embedded JSON text and validating the document
  it holds, and validating models field by field (aliases, missing
  fields, forbidden or validated extra entries) through `validate_model`.
  Its scalar kinds are null, booleans, integers, strings, bytes, UUIDs,
  URLs and temporal values; every step is specified by `spec_validate_node`.
  `validated_iterator` validates a generator's items one at a time, when
  `next_item` asks for the next one.
- Public proof functions whose names start with `law_` state properties that
  span several calls, such as what a registry holds after it is built or
  which values share a canonical key.
- `tests/` exercises the library on concrete values.
- `app/` is the thin layer for serde copies of library types.

Floating-point values are held as their IEEE 754 bit patterns; where text
must be written for a double, the caller hands in a formatter.

What is not in the library: the engine answers a `schema_kind` error for
the schema kinds it has no validator for (strings that turn numbers into
text, whose doubles it cannot format, floats, decimals,
fractions, complex numbers, patterns, literals, enums, unions, definitions,
sets, mappings and chains); field defaults other than those that
construction supplies are not validated, and a model's validated extra
entries are kept in the model value without a destination field. Serialization
to JSON, `TypeAdapter` and JSON Schema generation from compiled static
programs are not part of this crate.
