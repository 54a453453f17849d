# kaguyaos

The kernel logic of a small x86_64 operating system, verified with Verus, and a
tool that works on its disk images.

- `src/` is the library. Every function states in its contract what it returns
  and what it changes, over mathematical models of the machine's parts: the disk
  as a sequence of sectors, physical memory as a map from addresses to bytes,
  page tables as a map from frames to entries.
- `app/` is the program around it: the disk tool, and the code that runs the
  library on a machine.
- `tests/` runs the library on concrete values.

## Modules

| Module | What it holds |
| --- | --- |
| `device`, `fs` | The kernel's file system: SimpleFS, a flat one with contiguous files, and reading KAGFAT16 volumes |
| `fat` | KAGFAT16 volumes in disk images |
| `memory` | Frames, page tables, physical memory |
| `kef` | Loading executables |
| `acpi` | Tables of the firmware |
| `interrupts` | The interrupt table, handlers, and a lock |
| `processor` | Local APICs, other processors, their start-up code |
| `syscall` | System calls |
| `shell`, `cc` | The shell, and a tiny C compiler |
| `boot` | From the firmware to the first program |
| `le`, `text` | Little-endian integers, text |

Functions named `law_...` state what holds of several operations together: that
a file which was created reads back, that the kernel reads what the tool put into
a disk image, that deleting one file keeps the others,
that a page which was mapped is found again.
