//! The system calls the shell can issue, how sure the shell must be of an
//! inferred call before it runs it, and how a path names an entry of the
//! (flat) root directory.

use ext4plus::{DirEntryName, DirEntryNameError};
use vstd::prelude::*;
use vstd::string::StringSliceAdditionalSpecFns;
use vstd::utf8::*;

use crate::text::{lemma_ascii_cut, str_from_utf8};

verus! {

/// A system call, with its arguments.
pub enum Syscall {
    Print { message: String },
    Read { path: String },
    Write { path: String, data: Vec<u8> },
    Create { path: String },
    Delete { path: String },
    List { path: String },
    Time,
    Reboot,
}

/// A system call with its strings taken as character sequences.
pub enum SyscallView {
    Print { message: Seq<char> },
    Read { path: Seq<char> },
    Write { path: Seq<char>, data: Seq<u8> },
    Create { path: Seq<char> },
    Delete { path: Seq<char> },
    List { path: Seq<char> },
    Time,
    Reboot,
}

impl View for Syscall {
    type V = SyscallView;

    open spec fn view(&self) -> SyscallView {
        match self {
            Syscall::Print { message } => SyscallView::Print { message: message@ },
            Syscall::Read { path } => SyscallView::Read { path: path@ },
            Syscall::Write { path, data } => SyscallView::Write { path: path@, data: data@ },
            Syscall::Create { path } => SyscallView::Create { path: path@ },
            Syscall::Delete { path } => SyscallView::Delete { path: path@ },
            Syscall::List { path } => SyscallView::List { path: path@ },
            Syscall::Time => SyscallView::Time,
            Syscall::Reboot => SyscallView::Reboot,
        }
    }
}

/// Confidence, in hundredths, that an inferred call must exceed before it runs.
pub open spec fn spec_threshold(sc: SyscallView) -> u32 {
    match sc {
        SyscallView::Print { .. } => 50,
        SyscallView::Read { .. } => 60,
        SyscallView::Write { .. } => 80,
        SyscallView::Create { .. } => 70,
        SyscallView::Delete { .. } => 95,
        SyscallView::List { .. } => 60,
        SyscallView::Time => 50,
        SyscallView::Reboot => 97,
    }
}

impl Syscall {
    /// The confidence threshold of this call, in hundredths.
    pub fn threshold_hundredths(&self) -> (t: u32)
        ensures
            t == spec_threshold(self@),
    {
        match self {
            Syscall::Print { .. } => 50,
            Syscall::Read { .. } => 60,
            Syscall::Write { .. } => 80,
            Syscall::Create { .. } => 70,
            Syscall::Delete { .. } => 95,
            Syscall::List { .. } => 60,
            Syscall::Time => 50,
            Syscall::Reboot => 97,
        }
    }
}


#[verifier::external_type_specification]
#[verifier::external_body]
pub struct ExDirEntryName<'a>(DirEntryName<'a>);

#[verifier::external_type_specification]
#[verifier::external_body]
pub struct ExDirEntryNameError(DirEntryNameError);

/// A directory entry name as the ext4 driver accepts it: 1 to 255 bytes,
/// none of them NUL or `/`.
pub open spec fn valid_entry_name(b: Seq<u8>) -> bool {
    &&& 0 < b.len() <= 255
    &&& forall|i: int| 0 <= i < b.len() ==> b[i] != 0 && b[i] != 0x2F
}

/// The bytes a directory entry name refers to (what its `as_ref` hands back).
pub uninterp spec fn entry_name_bytes(n: DirEntryName) -> Seq<u8>;

/// Calls `ext4plus::DirEntryName::try_from` on a string slice. Its source:
/// the conversion fails exactly when the bytes are empty, longer than 255,
/// or hold a NUL byte or a `/`, and otherwise wraps those very bytes.
#[verifier::external_body]
fn entry_name<'a>(s: &'a str) -> (r: Result<DirEntryName<'a>, DirEntryNameError>)
    ensures
        r is Ok <==> valid_entry_name(s.spec_bytes()),
        r matches Ok(n) ==> entry_name_bytes(n) == s.spec_bytes(),
{
    DirEntryName::try_from(s)
}

/// A path that names no entry of the root directory.
#[derive(Debug, Clone, Copy, PartialEq, Eq)]
pub struct MalformedPath;

/// Number of `/` bytes that open `b`.
pub open spec fn leading_slashes(b: Seq<u8>) -> int
    decreases b.len(),
{
    if b.len() > 0 && b[0] == 0x2F {
        1 + leading_slashes(b.drop_first())
    } else {
        0
    }
}

proof fn lemma_leading_slashes(b: Seq<u8>, i: int)
    requires
        0 <= i <= b.len(),
        forall|j: int| 0 <= j < i ==> b[j] == 0x2F,
        i == b.len() || b[i] != 0x2F,
    ensures
        leading_slashes(b) == i,
    decreases i,
{
    if i > 0 {
        let rest = b.drop_first();
        assert forall|j: int| 0 <= j < i - 1 implies rest[j] == 0x2F by {
            assert(rest[j] == b[j + 1]);
        }
        if i < b.len() {
            assert(rest[i - 1] == b[i]);
        }
        lemma_leading_slashes(rest, i - 1);
    }
}

/// The root-directory entry that `path` names: the path without its leading
/// slashes, if that is a valid entry name.
pub fn get_path(path: &str) -> (r: Result<DirEntryName<'_>, MalformedPath>)
    ensures
        r is Ok <==> valid_entry_name(path.spec_bytes().skip(leading_slashes(path.spec_bytes()))),
        r matches Ok(n) ==> entry_name_bytes(n) == path.spec_bytes().skip(
            leading_slashes(path.spec_bytes()),
        ),
{
    let b = path.as_bytes();
    let mut i: usize = 0;
    while i < b.len() && b[i] == 0x2F
        invariant
            i <= b@.len(),
            forall|j: int| 0 <= j < i ==> b@[j] == 0x2F,
        decreases b@.len() - i,
    {
        i = i + 1;
    }
    proof {
        lemma_leading_slashes(b@, i as int);
        encode_utf8_valid_utf8(path@);
        if i > 0 {
            lemma_ascii_cut(b@, i - 1);
        } else {
            assert(b@.skip(0) =~= b@);
        }
    }
    let rest = &b[i..b.len()];
    assert(rest@ =~= b@.skip(i as int));
    let name = str_from_utf8(rest).unwrap();
    match entry_name(name) {
        Ok(n) => Ok(n),
        Err(_) => Err(MalformedPath),
    }
}

} // verus!
