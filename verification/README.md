# reptyr

Reparent a running program to a new terminal.

`src/` is a verified library: every decision of the tool, with its contract,
proved by Verus. `app/` is the program around it: it performs the system calls
that the library asks for. `tests/` runs the library on concrete values, on a
simulated thread among them.

Work that alternates system calls and decisions is a state machine in the
library. A machine is handed what the last request brought back and answers
with the next request, or with the outcome. Its contract is a transition
function; the laws of each module say what every run of the machine has to
offer.

| module | what it decides |
|---|---|
| `cli` | the command line |
| `modes` | the modes, from the command line to the relay |
| `visit` | a stay in another process: attach, hijack, work, restore, detach |
| `session` | seizing and stopping every thread of a process |
| `leave` | letting the threads go, with the signals that they are owed |
| `hijack` | running syscalls inside a thread, in place of its own |
| `kernel` | how a traced thread is run, and what the engine does to it |
| `inject` | moving a process to a new terminal |
| `steal` | taking a pty master out of a terminal emulator |
| `proxy` | relaying between a terminal and a pty master |
| `target`, `tty` | what /proc says; names of ptys |
| `ptrace`, `tracee`, `remote` | requests, their answers, and what these mean |
| `arch` | registers, syscall numbers and calling conventions |
| `abi`, `bytes`, `text`, `list`, `error` | numbers, memory layout, text, lists |

What the library takes on trust is five functions of `libc`: `WIFEXITED`,
`WIFSIGNALED`, `WSTOPSIG` (in `ptrace`), `major` and `minor` (in `target`).
