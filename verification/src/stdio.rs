//! Console output helpers of the shell.

use vstd::prelude::*;
use vstd::string::StringSliceAdditionalSpecFns;

use crate::serial::Serial;
use crate::shell::CommandBuffer;

verus! {

/// Writes `s` to the console.
pub fn print(con: &mut Serial, s: &str)
    requires
        old(con).wf(),
    ensures
        final(con).wf(),
        final(con).received() == old(con).received(),
        final(con).pending() == old(con).pending() + s.spec_bytes(),
{
    con.print(s);
}

/// `\r\n`
pub open spec fn crlf() -> Seq<u8> {
    seq![0x0Du8, 0x0A]
}

/// Writes `s` followed by `\r\n`.
pub fn println(con: &mut Serial, s: &str)
    requires
        old(con).wf(),
    ensures
        final(con).wf(),
        final(con).received() == old(con).received(),
        final(con).pending() == old(con).pending() + s.spec_bytes() + crlf(),
{
    con.print(s);
    con.wb(0x0D);
    con.wb(0x0A);
    assert(final(con).pending() =~= old(con).pending() + s.spec_bytes() + crlf());
}

/// Writes the typed line held by `cmd`.
pub fn printb(con: &mut Serial, cmd: &CommandBuffer)
    requires
        old(con).wf(),
        cmd.len <= 256,
    ensures
        final(con).wf(),
        final(con).received() == old(con).received(),
        final(con).pending() == old(con).pending() + cmd.buf@.take(cmd.len as int),
{
    con.printb(&cmd.buf, cmd.len);
}

/// Writes the bytes of `v`.
pub fn printv(con: &mut Serial, v: &Vec<u8>)
    requires
        old(con).wf(),
    ensures
        final(con).wf(),
        final(con).received() == old(con).received(),
        final(con).pending() == old(con).pending() + v@,
{
    con.printv(v);
}

} // verus!
