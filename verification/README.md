# emulate_core

A RISC-V machine in Rust, verified with Verus: an RV64GC hart with the bit
manipulation and scalar cryptography extensions, Sv39 paging, and the devices
of a QEMU `virt`-style board. Every function in `src/` has a contract that
says what it computes, and the laws that hold across functions are public
proof functions named `law_..`.

- `src/cpu/`: decoding, execution, floating point, traps, CSRs, the decoded
  block cache and why it never runs a stale instruction (`coherence.rs`).
- `src/mmu.rs`, `src/bus.rs`, `src/ram.rs`: translation, the physical memory
  map, and RAM whose pages count their writes.
- `src/devices/`: interrupt controllers, timers, serial port, display and the
  virtio devices over a common queue and transport.
- `src/snapshot.rs`: the encoding that harts and devices save themselves in.
- `tests/`: ordinary Rust tests of the library.
- `app/`: texts for a person.

Correctly rounded arithmetic comes from the `rustc_apfloat` crate, through the
wrappers in `src/cpu/fpu/softfloat.rs`. Their contracts are not proved, nor is
what the storage behind a block device promises when a host supplies its own.
