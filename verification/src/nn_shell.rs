//! Decoding of the model's answer into a system call, as the model-driven
//! shell profile does it.

use vstd::prelude::*;
use vstd::string::StringSliceAdditionalSpecFns;
use vstd::utf8::*;

use crate::intent::{
    lemma_ascii_valid, lemma_call_arg_valid, lemma_call_shape, lemma_find_at,
    lemma_write_args_valid, quote_free_bytes,
};

use crate::intent::{
    lit_close, lit_create, lit_none, lit_delete, lit_list_root, lit_mid, lit_open, lit_print, lit_read,
    lit_reboot, lit_time, lit_write,
};
use crate::syscall::{Syscall, SyscallView};
use crate::text::{
    bytes_eq, ends_with, find, lemma_ascii_cut, ok_text_bytes, owned, spec_ends_with, spec_find,
    spec_ok_text, str_from_utf8,
};

verus! {

/// A path argument: it starts with `/` and holds neither `"` nor `\`.
pub open spec fn spec_path(s: Seq<u8>) -> bool {
    s.len() > 0 && s[0] == 0x2F && spec_ok_text(s)
}

/// The system call that `parse` reads from the answer `t`.
pub open spec fn spec_parse_syscall(t: Seq<u8>) -> Option<SyscallView> {
    if !valid_utf8(t) {
        None
    } else if t == lit_time() {
        Some(SyscallView::Time)
    } else if t == lit_reboot() {
        Some(SyscallView::Reboot)
    } else if t == lit_list_root() {
        Some(SyscallView::List { path: seq!['/'] })
    } else {
        match spec_find(t, lit_open()) {
            None => None,
            Some(open) => {
                if !spec_ends_with(t, lit_close()) || t.len() < open + 4 {
                    None
                } else {
                    let verb = t.subrange(0, open);
                    let arg = t.subrange(open + 2, t.len() - 2);
                    if verb == lit_print() {
                        if spec_ok_text(arg) {
                            Some(SyscallView::Print { message: decode_utf8(arg) })
                        } else {
                            None
                        }
                    } else if verb == lit_read() {
                        if spec_path(arg) {
                            Some(SyscallView::Read { path: decode_utf8(arg) })
                        } else {
                            None
                        }
                    } else if verb == lit_create() {
                        if spec_path(arg) {
                            Some(SyscallView::Create { path: decode_utf8(arg) })
                        } else {
                            None
                        }
                    } else if verb == lit_delete() {
                        if spec_path(arg) {
                            Some(SyscallView::Delete { path: decode_utf8(arg) })
                        } else {
                            None
                        }
                    } else if verb == lit_write() {
                        match spec_find(arg, lit_mid()) {
                            None => None,
                            Some(mid) => {
                                let p = arg.take(mid);
                                let text = arg.skip(mid + 4);
                                if spec_path(p) && spec_ok_text(text) {
                                    Some(
                                        SyscallView::Write { path: decode_utf8(p), data: text },
                                    )
                                } else {
                                    None
                                }
                            },
                        }
                    } else {
                        None
                    }
                }
            },
        }
    }
}

/// The text holds neither `"` nor `\`.
pub fn quoted(s: &str) -> (r: bool)
    ensures
        r == spec_ok_text(s.spec_bytes()),
{
    ok_text_bytes(s.as_bytes())
}

/// The text is a quoted-safe absolute path.
pub fn path(s: &str) -> (r: bool)
    ensures
        r == spec_path(s.spec_bytes()),
{
    let b = s.as_bytes();
    b.len() > 0 && b[0] == 0x2F && quoted(s)
}

fn copy_bytes(s: &[u8]) -> (v: Vec<u8>)
    ensures
        v@ == s@,
{
    let mut v: Vec<u8> = Vec::new();
    let mut i: usize = 0;
    while i < s.len()
        invariant
            i <= s@.len(),
            v@ == s@.take(i as int),
        decreases s@.len() - i,
    {
        v.push(s[i]);
        assert(v@ =~= s@.take(i + 1));
        i = i + 1;
    }
    assert(s@.take(s@.len() as int) =~= s@);
    v
}

/// Reads a system call from the model's answer (the whole answer, without its
/// end marker). Anything that does not spell a known call is `None`; `NONE`
/// is among those.
pub fn parse(out: &[u8]) -> (r: Option<Syscall>)
    ensures
        match r {
            Some(sc) => spec_parse_syscall(out@) == Some(sc@),
            None => spec_parse_syscall(out@) is None,
        },
{
    let t = out;
    if str_from_utf8(t).is_none() {
        return None;
    }
    let time: [u8; 4] = [0x54, 0x49, 0x4D, 0x45];
    let reboot: [u8; 6] = [0x52, 0x45, 0x42, 0x4F, 0x4F, 0x54];
    let list_root: [u8; 9] = [0x4C, 0x49, 0x53, 0x54, 0x28, 0x22, 0x2F, 0x22, 0x29];
    assert(time@ =~= lit_time());
    assert(reboot@ =~= lit_reboot());
    assert(list_root@ =~= lit_list_root());
    if bytes_eq(t, time.as_slice()) {
        return Some(Syscall::Time);
    }
    if bytes_eq(t, reboot.as_slice()) {
        return Some(Syscall::Reboot);
    }
    if bytes_eq(t, list_root.as_slice()) {
        proof {
            reveal_strlit("/");
        }
        let slash = "/";
        assert(slash@ =~= seq!['/']);
        let root = owned(slash);
        return Some(Syscall::List { path: root });
    }
    let open_lit: [u8; 2] = [0x28, 0x22];
    let close_lit: [u8; 2] = [0x22, 0x29];
    assert(open_lit@ =~= lit_open());
    assert(close_lit@ =~= lit_close());
    let open = match find(t, open_lit.as_slice()) {
        Some(o) => o,
        None => return None,
    };
    if !ends_with(t, close_lit.as_slice()) || t.len() - open < 4 {
        return None;
    }
    let len = t.len();
    proof {
        assert(t@.subrange(open as int, open + 2) == lit_open());
        assert(t@[open as int + 1] == t@.subrange(open as int, open + 2)[1]);
        assert(t@.subrange(len - 2, len as int) == lit_close());
        assert(t@[len - 2] == t@.subrange(len - 2, len as int)[0]);
        lemma_ascii_cut(t@, open + 1);
        let w = t@.skip(open + 2);
        assert(w[len - 4 - open] == t@[len - 2]);
        lemma_ascii_cut(w, len - 4 - open);
        assert(w.take(len - 4 - open) =~= t@.subrange(open + 2, len - 2));
    }
    let verb = &t[0..open];
    let arg = &t[open + 2..len - 2];
    let print: [u8; 5] = [0x50, 0x52, 0x49, 0x4E, 0x54];
    let read: [u8; 4] = [0x52, 0x45, 0x41, 0x44];
    let create: [u8; 6] = [0x43, 0x52, 0x45, 0x41, 0x54, 0x45];
    let delete: [u8; 6] = [0x44, 0x45, 0x4C, 0x45, 0x54, 0x45];
    let write: [u8; 5] = [0x57, 0x52, 0x49, 0x54, 0x45];
    assert(print@ =~= lit_print());
    assert(read@ =~= lit_read());
    assert(create@ =~= lit_create());
    assert(delete@ =~= lit_delete());
    assert(write@ =~= lit_write());
    let arg_s = str_from_utf8(arg).unwrap();
    if bytes_eq(verb, print.as_slice()) {
        if quoted(arg_s) {
            return Some(Syscall::Print { message: owned(arg_s) });
        }
        return None;
    }
    if bytes_eq(verb, read.as_slice()) {
        if path(arg_s) {
            return Some(Syscall::Read { path: owned(arg_s) });
        }
        return None;
    }
    if bytes_eq(verb, create.as_slice()) {
        if path(arg_s) {
            return Some(Syscall::Create { path: owned(arg_s) });
        }
        return None;
    }
    if bytes_eq(verb, delete.as_slice()) {
        if path(arg_s) {
            return Some(Syscall::Delete { path: owned(arg_s) });
        }
        return None;
    }
    if bytes_eq(verb, write.as_slice()) {
        let mid_lit: [u8; 4] = [0x22, 0x2C, 0x20, 0x22];
        assert(mid_lit@ =~= lit_mid());
        let mid = match find(arg, mid_lit.as_slice()) {
            Some(m) => m,
            None => return None,
        };
        proof {
            let ab = arg@;
            assert(ab.subrange(mid as int, mid + 4) == lit_mid());
            assert(ab[mid as int] == ab.subrange(mid as int, mid + 4)[0]);
            lemma_ascii_cut(ab, mid as int);
            assert(ab.take(mid as int) =~= ab.subrange(0, mid as int));
        }
        let p_s = str_from_utf8(&arg[0..mid]).unwrap();
        let text = &arg[mid + 4..arg.len()];
        assert(text@ =~= arg@.skip(mid + 4));
        if path(p_s) && ok_text_bytes(text) {
            return Some(Syscall::Write { path: owned(p_s), data: copy_bytes(text) });
        }
        return None;
    }
    None
}

/// What the model-driven shell makes of the model's answer.
pub enum Answer {
    /// The model answered `NONE`: nothing to do.
    NoAction,
    /// The answer spells no system call.
    Unparsed,
    /// The system call to make.
    Call(Syscall),
}

/// Sorts the model's answer (without its end marker): `NONE`, a system call,
/// or something unparseable.
pub fn interpret_answer(out: &[u8]) -> (a: Answer)
    ensures
        out@ == lit_none() ==> a is NoAction,
        out@ != lit_none() ==> match a {
            Answer::NoAction => false,
            Answer::Unparsed => spec_parse_syscall(out@) is None,
            Answer::Call(sc) => spec_parse_syscall(out@) == Some(sc@),
        },
{
    let none: [u8; 4] = [0x4E, 0x4F, 0x4E, 0x45];
    assert(none@ =~= lit_none());
    if bytes_eq(out, none.as_slice()) {
        return Answer::NoAction;
    }
    match parse(out) {
        Some(sc) => Answer::Call(sc),
        None => Answer::Unparsed,
    }
}

/// Whether a directory entry goes into the listing the model sees: every
/// name but `.` and `..`.
pub fn listing_entry(name: &str) -> (b: bool)
    ensures
        b == !(name.spec_bytes() == seq![0x2Eu8] || name.spec_bytes() == seq![0x2Eu8, 0x2E]),
{
    let dot: [u8; 1] = [0x2E];
    let dotdot: [u8; 2] = [0x2E, 0x2E];
    assert(dot@ =~= seq![0x2Eu8]);
    assert(dotdot@ =~= seq![0x2Eu8, 0x2E]);
    let b = name.as_bytes();
    !(bytes_eq(b, dot.as_slice()) || bytes_eq(b, dotdot.as_slice()))
}


/// UTF-8 bytes of a path the shell acts on: `/` first, neither `"` nor `\`.
pub open spec fn rooted_path_bytes(b: Seq<u8>) -> bool {
    &&& b.len() > 0
    &&& b[0] == 0x2F
    &&& forall|i: int| 0 <= i < b.len() ==> b[i] != 0x22 && b[i] != 0x5C
}

/// `PRINT("text")` prints the whole text between the quotes.
pub proof fn law_syscall_print(text: Seq<u8>)
    requires
        valid_utf8(text),
        quote_free_bytes(text),
    ensures
        spec_parse_syscall(
            seq![0x50u8, 0x52, 0x49, 0x4E, 0x54, 0x28, 0x22] + text + seq![0x22u8, 0x29],
        ) == Some(SyscallView::Print { message: decode_utf8(text) }),
{
    lemma_call_shape(lit_print(), text);
    assert(seq![0x50u8, 0x52, 0x49, 0x4E, 0x54, 0x28, 0x22] + text + seq![0x22u8, 0x29]
        =~= lit_print() + lit_open() + text + lit_close());
}

/// `READ`, `CREATE` and `DELETE` of a path starting with `/` act on that
/// whole path.
pub proof fn law_syscall_path_call(verb: Seq<u8>, path: Seq<u8>)
    requires
        verb == seq![0x52u8, 0x45, 0x41, 0x44] || verb == seq![0x43u8, 0x52, 0x45, 0x41, 0x54, 0x45]
            || verb == seq![0x44u8, 0x45, 0x4C, 0x45, 0x54, 0x45],
        valid_utf8(path),
        rooted_path_bytes(path),
    ensures
        spec_parse_syscall(verb + seq![0x28u8, 0x22] + path + seq![0x22u8, 0x29]) == if verb[0]
            == 0x52 {
            Some(SyscallView::Read { path: decode_utf8(path) })
        } else if verb[0] == 0x43 {
            Some(SyscallView::Create { path: decode_utf8(path) })
        } else {
            Some(SyscallView::Delete { path: decode_utf8(path) })
        },
{
    assert(lit_read() =~= seq![0x52u8, 0x45, 0x41, 0x44]);
    assert(lit_create() =~= seq![0x43u8, 0x52, 0x45, 0x41, 0x54, 0x45]);
    assert(lit_delete() =~= seq![0x44u8, 0x45, 0x4C, 0x45, 0x54, 0x45]);
    lemma_call_shape(verb, path);
    assert(lit_print()[0] != verb[0]);
    assert(lit_read()[0] != lit_create()[0]);
    assert(lit_read()[0] != lit_delete()[0]);
    assert(lit_create()[0] != lit_delete()[0]);
    assert(verb + seq![0x28u8, 0x22] + path + seq![0x22u8, 0x29] =~= verb + lit_open() + path
        + lit_close());
}

/// `WRITE("path", "text")` writes the whole text, as bytes, to that path.
#[verifier::rlimit(40)]
pub proof fn law_syscall_write(path: Seq<u8>, text: Seq<u8>)
    requires
        valid_utf8(path),
        valid_utf8(text),
        rooted_path_bytes(path),
        quote_free_bytes(text),
    ensures
        spec_parse_syscall(
            seq![0x57u8, 0x52, 0x49, 0x54, 0x45, 0x28, 0x22] + path + seq![0x22u8, 0x2C, 0x20, 0x22]
                + text + seq![0x22u8, 0x29],
        ) == Some(SyscallView::Write { path: decode_utf8(path), data: text }),
{
    let arg = path + lit_mid() + text;
    let m = path.len() as int;
    let t = lit_write() + lit_open() + arg + lit_close();
    assert(seq![0x57u8, 0x52, 0x49, 0x54, 0x45, 0x28, 0x22] + path + seq![0x22u8, 0x2C, 0x20, 0x22]
        + text + seq![0x22u8, 0x29] =~= t);
    assert(lit_print()[0] != lit_write()[0]);
    assert(lit_read()[0] != lit_write()[0]);
    assert(lit_create()[0] != lit_write()[0]);
    assert(lit_delete()[0] != lit_write()[0]);
    lemma_ascii_valid(lit_mid());
    valid_utf8_concat(path, lit_mid());
    valid_utf8_concat(path + lit_mid(), text);
    lemma_call_shape(lit_write(), arg);
    assert(arg.subrange(m, m + 4) =~= lit_mid());
    assert forall|j: int| 0 <= j < m implies #[trigger] arg.subrange(j, j + 4) != lit_mid() by {
        assert(arg.subrange(j, j + 4)[0] == path[j]);
    }
    lemma_find_at(arg, lit_mid(), 0, m);
    assert(arg.take(m) =~= path);
    assert(arg.skip(m + 4) =~= text);
}


/// Whatever the answer, a call that touches a file names it by a path
/// starting with `/`, and no argument holds a quote or a backslash.
pub proof fn law_syscall_paths_are_rooted(out: Seq<u8>)
    ensures
        spec_parse_syscall(out) matches Some(SyscallView::Read { path }) ==> rooted_path_bytes(
            encode_utf8(path),
        ),
        spec_parse_syscall(out) matches Some(SyscallView::Create { path }) ==> rooted_path_bytes(
            encode_utf8(path),
        ),
        spec_parse_syscall(out) matches Some(SyscallView::Delete { path }) ==> rooted_path_bytes(
            encode_utf8(path),
        ),
        spec_parse_syscall(out) matches Some(SyscallView::Write { path, data }) ==> rooted_path_bytes(
            encode_utf8(path),
        ) && quote_free_bytes(data),
        spec_parse_syscall(out) matches Some(SyscallView::Print { message }) ==> quote_free_bytes(
            encode_utf8(message),
        ),
        spec_parse_syscall(out) matches Some(SyscallView::List { path }) ==> path == seq!['/'],
{
    let t = out;
    if valid_utf8(t) && spec_find(t, lit_open()) is Some && spec_ends_with(t, lit_close())
        && t.len() >= spec_find(t, lit_open())->0 + 4 {
        let o = spec_find(t, lit_open())->0;
        let arg = t.subrange(o + 2, t.len() - 2);
        lemma_call_arg_valid(t);
        decode_utf8_encode_utf8(arg);
        if spec_find(arg, lit_mid()) is Some {
            let m = spec_find(arg, lit_mid())->0;
            lemma_write_args_valid(arg);
            decode_utf8_encode_utf8(arg.take(m));
        }
    }
}

} // verus!
