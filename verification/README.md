# chainloader

A minimal development chainloader for the Raspberry Pi (AArch64), with its logic
verified by Verus:

```text
Pi firmware -> SD-resident AArch64 loader -> UART -> host binary -> jump
```

The loader lives on the SD card permanently. Day-to-day development is a build
and a UART load:

```sh
cargo build --release   # build your AArch64 bare-metal payload
cargo pi load           # transfer it over UART and boot it
```

## Layout

| Path     | What it is                                                            |
|----------|-----------------------------------------------------------------------|
| `src/`   | The verified library: wire format, both state machines, host tooling, |
|          | and what the board's drivers compute.                                 |
| `tests/` | Tests of the library on concrete values.                              |
| `app/`   | The programs around it: the host's files and serial port, the board's |
|          | registers and processor.                                              |

## What is proved

- Every frame that is encoded is decoded again, on its last byte, and nothing is
  reported that was not encoded. Noise and damaged frames are survived.
- The loader never writes outside its window or over itself, and branches only
  into an image that arrived whole and whose CRC is the announced one.
- A transfer of an image that a loader would take completes, in chunks of any
  size, and leaves exactly that image in memory. Every transfer ends.
- Flattening an ELF, reading numbers, merging settings and choosing a serial
  device have exact contracts.

What is not proved: `serde_json` reads JSON as `src/json.rs` states it, and the
`Debug` form of a string is what `src/number.rs` names. Assembly, registers and
I/O are in `app/`.
