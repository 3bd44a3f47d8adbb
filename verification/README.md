# asterinas

The core of a small kernel, verified with Verus: which CPUs a task may run on, how tasks are
scheduled, how threads wait for words of memory, and how memory objects are mapped.

- `src/cpu.rs`, `src/trap.rs`, `src/smp.rs`, `src/boot.rs`: sets of CPUs, data of one CPU, the
  interrupt flag, which CPUs have started, and what is laid out in memory for them.
- `src/sync/`: spin locks and mutexes, what those see who share one, and how long a CPU waits
  between attempts to take it.
- `src/task/`: tasks, their stacks, preemption, the interface of schedulers, and the switch from one
  task to the next.
- `src/sched/`: the completely fair scheduler. Normal tasks wait in the order of their virtual run
  times; real-time tasks come first.
- `src/futex/`: queues of threads that wait for a futex.
- `src/vm/`: mappings of memory objects, page faults, protection and trimming.
- `src/idle.rs`, `src/init.rs`: what an idle CPU does, and the threads that the kernel starts with.

The state of the kernel is held in plain values, and every operation is a function on them whose
contract says what it does to their mathematical views. Public proof functions named `law_...` state
what holds across operations.

Bit vectors and type maps come from the crates `bitvec` and `anymap3`. The functions that call them
are the only ones that are not proved; each says in its documentation what it relies on.

`app/` is the kernel around this core: it touches the registers, waits, prints, and does the context
switches that the core decides on.
