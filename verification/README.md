# swan_kernel

The logic of a small x86_64 kernel, verified with Verus.

- `screen`: the 80 by 25 text screen and the rules by which bytes move the
  cursor and fill cells; `tty` (the kernel's `Writer`) and `drivers::tty::io`
  (the console driver) write on it.
- `log`: tagged log lines on the screen and for the serial port.
- `terminal`: splitting a command line into words, commands with named
  arguments, and the line editing that the keyboard drives.
- `memory`: the boot memory map, physical-to-virtual translation, the page
  table walk and the frame allocator.
- `allocator`: the heap's size setting, its layout and pages, and what the
  heap allocator reports.
- `cpu`: the processor's description for the log.

`app/` holds what runs on the machine: VGA memory, page-table updates, the
heap's global allocator and the keyboard loop. Run as an ordinary program it
drives the terminal from standard input.
