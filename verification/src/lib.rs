//! Verified core of a small aarch64 kernel whose shell is driven by a byte-level
//! language model: the model file format, the prompt/intent protocol, and the
//! kernel's queues, buffers and syscall decoding.

// the model: file format, dimensions, prompt and answer protocol
pub mod format;
pub mod intent;
pub mod model;
pub mod quant;
// the shell: line editing, answer decoding, system calls
pub mod nn_shell;
pub mod shell;
pub mod syscall;
// the kernel: console, run queue, devices
pub mod dtb;
pub mod executor;
pub mod gic;
pub mod ramdisk;
pub mod ringbuf;
pub mod serial;
pub mod stdio;
// byte-string helpers
pub mod text;
