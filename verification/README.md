# filesystem_store

A key-value store that keeps each value in a file of its own, below a data directory, under a
primary namespace, a secondary namespace and a key. Every change of a key gets a version when it is
prepared. Changes may be executed in any order, be retried and fail at any point: the newest version
wins, a file always holds a whole value, and a change that could not be made durable is not
forgotten.

`src/` holds the decisions, verified with Verus. It touches no file: an operation or a listing is
executed step by step, and every step says which action to perform next.

| module | what it holds |
| --- | --- |
| `namespace`, `path`, `text` | which names are allowed, and which files they stand for |
| `state` | what is remembered of the operations on one file |
| `locks` | the files in use, with their readers, writers and references |
| `action`, `execution` | the steps of a write and of a removal, on Unix and on Windows |
| `store`, `operation`, `read` | preparing, executing and releasing operations and reads |
| `listing`, `migration` | listing the keys of a namespace, and all keys |
| `laws` | what holds of the store as a whole: of names, of one execution, of listings, and of a store at work with any number of operations |

`app/` performs the actions on the file system and offers the store through the `KVStore`,
`KVStoreSync` and `MigratableKVStore` traits of the `lightning` crate.

`tests/` runs the library against disks that are kept in memory.

## What is not proved

A few items of other crates and of the standard library are used through declarations whose contracts
are believed: the display of `PrintableString` and the two constants that limit names, all from
`lightning`, `String::from_utf8`, and `PathBuf` with its `clone`. Each stands with its claim in `text`,
`namespace` and `store`. The laws on files take for granted that moving, replacing and deleting a
file either happens as a whole or not at all.
