# jlink_swd

The Serial Wire Debug (SWD) protocol for debug probes that shift raw bits, such as the
J-Link, written in Rust and verified with Verus.

A probe implements `RawSwdIo`: it clocks a sequence of bits over the SWDIO line and hands
back what it sampled. On top of that the library offers `DAPAccess`, which reads and writes
the registers of the debug port and of the access ports of a target.

| Module       | What it holds                                                        |
|--------------|----------------------------------------------------------------------|
| `bits`       | words, their bits and their parity                                   |
| `sequence`   | sequences of clock cycles                                            |
| `transfer`   | single transfers and the cycles that perform them                    |
| `response`   | the outcome of a transfer, read from the sampled bits                |
| `schedule`   | which transfers a batch takes, and where the answers are found       |
| `batch`      | planning, performing and settling a batch                            |
| `probe`      | the interface to a probe, and the history that contracts speak of    |
| `line_reset` | getting the attention of a target                                    |
| `recovery`   | what a register access does, told from the history of the probe      |
| `access`     | register and block access, with recovery from what the target answers |
| `registers`  | ports, register addresses and flags                                  |
| `error`      | the errors                                                           |

Contracts of functions that talk to a probe say what they add to the probe's history, which
exchanges and which line resets in which order, and what the result is for every reply. Only
the exchanges that a probe makes within its own line reset are left to the probe. Proof functions whose names start with
`law_` state what holds across functions.

`app/` holds the implementation of `RawSwdIo` for a J-Link on USB.
