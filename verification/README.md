# nnos

A small aarch64 kernel whose shell asks an on-disk byte-level language model
what a typed line means, then runs the system call it answers with.

- `src/` is the verified library (Verus): the model file format, the prompt
  and answer protocol of the model, the shell's line editing and syscall
  decoding, the confidence thresholds, the console ring buffer and output
  queue, the executor's run queue, and the register arithmetic of the devices.
- `app/` is the kernel around it: boot, interrupt handling, memory-mapped
  devices, the async runtime, the ext4 ramdisk, and the floating-point model
  runtime (kernels, forward pass, greedy and beam decoding).
- `tests/` runs the library on concrete inputs.
