# bootloader

A UEFI bootloader for an x86_64 kernel, split into a verified library and the
program around it.

- `src/` (verified with Verus): the early frame allocator over the firmware
  memory map (`memory`), the placement of the kernel's ELF segments and their
  zero-filled tails (`kernel`), the layout of the kernel stack, framebuffer,
  context-switch code and boot information (`mappings`), the level 4 entries
  shared with the firmware's identity map (`paging`), the choice of the ACPI
  root pointer (`firmware`), framebuffer painting (`display`), loading the
  interrupt table (`interrupts`), and the address arithmetic they share
  (`addr`).
- `app/`: the UEFI program that talks to the firmware, parses the kernel's ELF
  file, writes the page tables, copies and zeroes memory and jumps to the
  kernel, following the library's plans; and the kernel-side entry code for
  the bare-metal target.
- `tests/`: tests of the library on concrete values.
