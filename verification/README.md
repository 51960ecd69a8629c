# aloe

The kernel support libraries of a small operating system, with their logic proved
correct in Verus.

- `src/` is the verified library:
  - `mem`: addresses and pages, the physical memory map, the table-of-tables physical
    page manager (`backing`, `pmm`), the buddy allocator of the kernel heap (`buddy`),
    virtual regions and their page iterators (`vm`, `vmm`), and a model of the
    four-level page tables (`paging`, `paging::mapping`): the entries of each level, how
    mapping a page and taking over the bootloader's mappings change them, and what a
    lookup finds. The model holds no hardware encoding and no physical addresses of the
    tables themselves, so it is not loaded into the processor;
  - `ipc`: the wire format of portal messages and the queues of an IPC service;
  - `portal`: the names and checks the portal generator uses, and the syscall
    convention's checks;
  - `manage`: the lifecycle of an asynchronous task;
  - `tar`, `fs`, `serial`, `debug`, `util`: the tar reader, block-device reads, serial
    divisors, terminal styling and log headers, and alignment helpers.
- `app/` holds what needs global state, hardware or the outside world: the global page
  manager and allocator, the page-fault hook, address translation through the loaded
  tables, the debug log output, the IPC receive loops and the kernel side of syscalls.
- `tests/` exercises the library on concrete values.
