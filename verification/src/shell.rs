//! Line editing of the shell: typed bytes collect in a fixed buffer until a
//! carriage return or newline ends the line.

use vstd::prelude::*;
use vstd::string::StringExecFns;
use vstd::string::StringSliceAdditionalSpecFns;
use vstd::utf8::*;

use crate::syscall::{Syscall, SyscallView};
use crate::text::str_from_utf8;

verus! {

/// Room for one typed line.
pub const LINE_CAP: usize = 256;

/// A typed line: the first `len` bytes of `buf`.
#[derive(Clone, Copy)]
pub struct CommandBuffer {
    pub buf: [u8; 256],
    pub len: usize,
}

/// What one typed byte did to the line.
#[derive(Debug, Clone, Copy, PartialEq, Eq)]
pub enum LineEvent {
    /// `\r` or `\n`: the line is complete; the byte is not stored.
    Complete,
    /// The byte was appended.
    Stored,
    /// The line is full; the byte was not stored.
    Overflow,
}

/// The line ends at a carriage return or a newline.
pub open spec fn is_line_end(b: u8) -> bool {
    b == 0x0D || b == 0x0A
}

impl CommandBuffer {
    /// An empty line.
    pub fn new() -> (c: CommandBuffer)
        ensures
            c.len == 0,
            c.buf@ == Seq::new(LINE_CAP as nat, |i: int| 0u8),
    {
        let c = CommandBuffer { buf: [0u8; 256], len: 0 };
        assert(c.buf@ =~= Seq::new(LINE_CAP as nat, |i: int| 0u8));
        c
    }

    /// The bytes typed so far.
    pub open spec fn line(&self) -> Seq<u8> {
        self.buf@.take(self.len as int)
    }

    /// Takes one typed byte.
    pub fn feed(&mut self, b: u8) -> (e: LineEvent)
        ensures
            is_line_end(b) ==> e == LineEvent::Complete && *final(self) == *old(self),
            !is_line_end(b) && old(self).len < LINE_CAP ==> e == LineEvent::Stored
                && final(self).len == old(self).len + 1 && final(self).buf@ == old(self).buf@.update(old(self).len as int, b),
            !is_line_end(b) && old(self).len >= LINE_CAP ==> e == LineEvent::Overflow
                && *final(self) == *old(self),
    {
        if b == 0x0D || b == 0x0A {
            return LineEvent::Complete;
        }
        if self.len < LINE_CAP {
            self.buf[self.len] = b;
            self.len = self.len + 1;
            return LineEvent::Stored;
        }
        LineEvent::Overflow
    }

    /// Starts a new line.
    pub fn clear(&mut self)
        ensures
            final(self).len == 0,
            final(self).buf == old(self).buf,
    {
        self.len = 0;
    }
}


/// The fallback shell profile: it echoes what was typed.
pub struct BashProfile;

impl BashProfile {
    /// The system call the echo shell makes for a typed line: printing
    /// `\r\ngot: ` and the line, when the line is valid UTF-8.
    pub fn infer_syscall(&self, cmd: &CommandBuffer) -> (r: Option<Syscall>)
        requires
            cmd.len <= LINE_CAP,
        ensures
            !valid_utf8(cmd.line()) ==> r is None,
            valid_utf8(cmd.line()) ==> (r matches Some(sc) && sc@ == (SyscallView::Print {
                message: "\r\ngot: "@ + decode_utf8(cmd.line()),
            })),
    {
        let all = cmd.buf.as_slice();
        let line = &all[0..cmd.len];
        assert(line@ =~= cmd.line());
        let s = match str_from_utf8(line) {
            Some(s) => s,
            None => return None,
        };
        proof {
            encode_utf8_decode_utf8(s@);
        }
        let mut message = String::from_str("\r\ngot: ");
        message.append(s);
        Some(Syscall::Print { message })
    }
}

} // verus!
