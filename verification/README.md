# til_query

A verified library for the types and structures of the Tydi interface
language: logical stream types and their split into physical streams,
element and transfer values, generic parameters and their values, type
references, interfaces, type declarations, structural implementations,
and the namespaces and projects that declare them.

Every function in `src/` is proved by Verus against its `requires` and
`ensures`. The few trusted items are the calls into `bitvec` (the bit
vectors behind element values) and `textwrap` (indentation of texts).

- `src/` holds the library; each module opens with a short description.
- `tests/` holds the tests, run against the compiled library.
- `app/` holds what Verus does not check: the file-system query behind
  links, and throughput values given as floating-point numbers.

## Design choices

- Values are held directly. Declarations are not interned in a query
  database: a namespace holds its type declarations, implementations,
  interfaces and streamlets themselves, and a port names its stream by a
  plain number.
  What only such a database does (moving declarations between databases
  when a project imports another, and looking up a declared type with its
  parameters substituted) is not part of the library.
- Maps keyed by names are sequences of entries with distinct keys
  (`ordered_map::InsertionOrderedMap`), an invariant that every operation
  keeps, so that their contracts speak of a sequence of entries rather
  than of a hash map whose hashing Verus cannot read. Fields, split
  streams, parameters and ports keep the order of insertion; the
  declarations of a namespace and the namespaces of a project keep the
  order of their names, as a sorted map would.
- Throughputs are exact ratios of integers rather than floating-point
  numbers; a product that does not fit is reported as an error.
- Callbacks over signal lists take a value and return one (`Fn(T) -> T`),
  as Verus does not verify closures that mutate what they borrow.
