# lib

The memory management and boot logic of a small x86-64 kernel and its UEFI
bootloader, written in Verus and proved against its contracts.

- `src/` is the verified library: the buddy allocator (`bitmap`, `layered_bitmap`,
  `region`, `buddy`), the kernel's frame, page, heap and slab allocators, the
  bootloader's frame allocator and ELF loading, an AML parser for ACPI tables
  (`aml*`), and the decoding of x86 control registers, descriptors, page-table
  entries and keyboard scancodes.
- `tests/` runs the library on concrete values.
- `app/` is the program around it: reading the kernel image and the memory map,
  port and MMIO access, register reads, and printing.

Storage and access follow the rules of a verified crate: metadata that the kernel
keeps in raw frames (bitmaps, region records, free-space lists) is held in std `Vec`s
here, and what sits behind a spin lock is reached through `&mut`. So the functions that
build these structures take no frames or pages for their own metadata; callers that
account for such frames allocate them first. The AML grammar is a set of parsers on
byte slices, with one grammar spec per construct.
