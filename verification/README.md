# asc

Atomic strong count: `Asc<T>` is a drop-in replacement for `std::sync::Arc<T>`
where no weak references are needed. The value is freed as soon as the last
`Asc` to it is dropped.

```rust
use asc::Asc;

let a: Asc<i32> = Asc::new(42);
let b = a.clone();

assert_eq!(Asc::strong_count(&a), 2);
assert_eq!(*b, 42);

// try_unwrap fails while other handles exist
assert!(Asc::try_unwrap(a.clone()).is_err());

drop(b);

// and succeeds with the last one
let value = Asc::try_unwrap(a).unwrap();
assert_eq!(value, 42);
```

The library is verified with [Verus](https://github.com/verus-lang/verus).

* `src/shared.rs`: `Asc`, over an allocation of `std`'s `Arc`. Its contracts
  follow the value and the allocation of every handle; how many handles there
  are is up to the rest of the program.
* `src/heap.rs`: the same operations on memory that is a plain value. Here every
  contract says what becomes of the counts.
* `src/count.rs`: the rules of the strong count.
* `src/ledger.rs`, `src/laws.rs`: the mathematical state of a heap, and what is
  proved of it for every sequence of operations, and of comparing handles.
* `app/`: raw pointers, pinning, and the `serde` form of an `Asc`.
