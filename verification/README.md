# borrow_mutex

An async mutex that does not wrap what it guards. A reference is lended to it for a time; others
borrow it, one at a time and in the order in which they asked; and the lender waits until the
reference is given back. At most one side has the reference at any given time.

`src/` is the verified library. `app/` makes the accesses that the library decides on, with atomics
and raw pointers, and hands out futures and guards.

| module             | what it holds                                                              |
|--------------------|----------------------------------------------------------------------------|
| `borrow_mutex`     | the mutex: requests, borrowed references, lend guards, termination          |
| `mpmc`             | the bounded queue of requests, for any number of producers and consumers    |
| `atomic_waiter`    | a flag that a task can wait for, on top of `futures::task::AtomicWaker`     |
| `atomic_waker`     | a waker cell made of a plain slot and one byte of state                     |
| `atomic_fat_ptr`   | a pointer of any width behind a spin lock                                   |
| `counter`, `text`  | arithmetic of wrapping counters; numbers and flags in words                 |
| `task`             | what is believed of wakers and of `AtomicWaker`                             |

Each piece is made of single accesses: a step says which access comes next, and takes what that
access gave back to the step after it. There are two ways to run them.

- The methods take `&mut self` and run an operation from its first access to its last. Their
  contracts say what that does to the state.
- Tasks that share the state run their steps side by side. The `interleaving` modules say what
  every order of accesses keeps, as functions named `law_..`. The mutex has two such modules:
  `interleaving` is about the order of whole calls, `threads` about the order of single accesses.

The queue keeps its elements in place, so the mutex does not allocate. That `core::array::from_fn`
fills an array is believed, next to what `task` says of wakers.

Where going on would leave two owners of one mutable reference, an operation gives back a
`BorrowMutexAbort`, and the process has to end.
