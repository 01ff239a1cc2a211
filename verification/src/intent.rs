//! The frozen prompt and output protocol of the shell model. The prompt is
//! `BOS listing SEP line SOO`; the model answers with an intent such as
//! `READ("/hello.txt")` followed by `EOS`.

use vstd::prelude::*;
use vstd::string::StringSliceAdditionalSpecFns;
use vstd::utf8::*;

use crate::text::{
    bytes_eq, ends_with, find, find_from, lemma_ascii_cut, lemma_find_from_sound, ok_text_bytes, owned, spec_ends_with,
    spec_find, spec_ok_text, str_from_utf8,
};

verus! {

/// Padding token.
pub const PAD: u8 = 0;
/// Start of the prompt.
pub const BOS: u8 = 1;
/// Between the listing and the typed line.
pub const SEP: u8 = 2;
/// Start of the answer.
pub const SOO: u8 = 3;
/// End of the answer.
pub const EOS: u8 = 4;

/// Most bytes of directory listing that a prompt carries.
pub const LISTING_CAP: usize = 180;

/// Context positions kept free for the model's answer.
pub const OUTPUT_RESERVE: usize = 96;

/// Bytes of the listing budget: the cap, or what is left of the context after
/// the four special tokens, the line and the answer reserve.
pub open spec fn spec_budget(line_len: int, ctx: int) -> int {
    let room = if ctx >= 4 + line_len + OUTPUT_RESERVE {
        ctx - (4 + line_len + OUTPUT_RESERVE)
    } else {
        0
    };
    if LISTING_CAP <= room {
        LISTING_CAP as int
    } else {
        room
    }
}

/// Bytes taken by the first `k` names joined by single spaces.
pub open spec fn listing_len(names: Seq<&str>, k: int) -> int
    decreases k,
{
    if k <= 0 {
        0
    } else {
        listing_len(names, k - 1) + names[k - 1].spec_bytes().len() + (if k == 1 {
            0int
        } else {
            1int
        })
    }
}

/// How many leading names a scan over the first `n` names keeps: a name is
/// kept while the joined listing still fits the budget, and the scan stops at
/// the first name that does not fit.
pub open spec fn kept_count(names: Seq<&str>, budget: int, n: int) -> int
    decreases n,
{
    if n <= 0 {
        0
    } else {
        let c = kept_count(names, budget, n - 1);
        if c == n - 1 && listing_len(names, n) <= budget {
            n
        } else {
            c
        }
    }
}

/// The names that `truncate_listing` keeps.
pub open spec fn spec_truncate(names: Seq<&str>, line_len: int, ctx: int) -> Seq<&str> {
    names.take(kept_count(names, spec_budget(line_len, ctx), names.len() as int))
}

proof fn lemma_kept_count_stops(names: Seq<&str>, budget: int, i: int, n: int)
    requires
        0 <= i < n,
        kept_count(names, budget, i) == i,
        listing_len(names, i + 1) > budget,
    ensures
        kept_count(names, budget, n) == i,
    decreases n,
{
    if n > i + 1 {
        lemma_kept_count_stops(names, budget, i, n - 1);
    }
}

proof fn lemma_kept_count_bounds(names: Seq<&str>, budget: int, n: int)
    requires
        0 <= n,
    ensures
        0 <= kept_count(names, budget, n) <= n,
        budget >= 0 ==> listing_len(names, kept_count(names, budget, n)) <= budget,
    decreases n,
{
    if n > 0 {
        lemma_kept_count_bounds(names, budget, n - 1);
    }
}

proof fn lemma_listing_len_take(names: Seq<&str>, c: int, k: int)
    requires
        0 <= k <= c <= names.len(),
    ensures
        listing_len(names.take(c), k) == listing_len(names, k),
    decreases k,
{
    if k > 0 {
        lemma_listing_len_take(names, c, k - 1);
    }
}

/// Keeps whole names in directory order until the listing budget is spent.
/// The budget shrinks with the command length so that a long line cannot push
/// the prompt past the context.
pub fn truncate_listing<'a>(names: &[&'a str], line_len: usize, ctx: usize) -> (kept: Vec<&'a str>)
    ensures
        kept@ == spec_truncate(names@, line_len as int, ctx as int),
{
    let room: usize = if ctx >= 4 + OUTPUT_RESERVE && line_len <= ctx - (4 + OUTPUT_RESERVE) {
        ctx - (4 + OUTPUT_RESERVE) - line_len
    } else {
        0
    };
    let budget: usize = if LISTING_CAP <= room { LISTING_CAP } else { room };
    assert(budget == spec_budget(line_len as int, ctx as int));

    let mut kept: Vec<&'a str> = Vec::new();
    let mut used: usize = 0;
    let mut i: usize = 0;
    let mut done = false;
    while i < names.len() && !done
        invariant
            i <= names@.len(),
            kept@ == names@.take(i as int),
            used == listing_len(names@, i as int),
            used <= budget,
            budget == spec_budget(line_len as int, ctx as int),
            kept_count(names@, budget as int, i as int) == i,
            done ==> i < names@.len() && listing_len(names@, i + 1) > budget,
        decreases names@.len() - i, (if done { 0int } else { 1int }),
    {
        let n: &str = names[i];
        let sep: usize = if i == 0 { 0 } else { 1 };
        let room_left: usize = budget - used;
        let n_len: usize = n.as_bytes().len();
        if room_left < sep || n_len > room_left - sep {
            done = true;
        } else {
            assert(names@[i as int] == n);
            assert(listing_len(names@, i + 1) == used + sep + n_len);
            kept.push(n);
            used = used + sep + n_len;
            assert(kept@ =~= names@.take(i + 1));
            i = i + 1;
        }
    }
    proof {
        if done {
            lemma_kept_count_stops(names@, budget as int, i as int, names@.len() as int);
        }
    }
    kept
}

/// User bytes with the special tokens (0 to 4) replaced by `?`.
pub open spec fn sanitize(line: Seq<u8>) -> Seq<u8> {
    line.map_values(|b: u8| if b <= EOS { 0x3Fu8 } else { b })
}

/// The names joined by single spaces.
pub open spec fn spec_join(names: Seq<&str>) -> Seq<u8>
    decreases names.len(),
{
    if names.len() == 0 {
        Seq::empty()
    } else if names.len() == 1 {
        names[0].spec_bytes()
    } else {
        spec_join(names.drop_last()) + seq![0x20u8] + names.last().spec_bytes()
    }
}

/// The prompt `p` ends with `SEP`, the typed `line` and `SOO`, where each typed
/// byte is kept as typed except the special bytes 0 to 4, which read `?`.
pub open spec fn typed_line_kept(p: Seq<u8>, line: Seq<u8>) -> bool {
    let start = p.len() - 1 - line.len();
    &&& p.len() >= line.len() + 3
    &&& p[p.len() - 1] == SOO
    &&& p[start - 1] == SEP
    &&& forall|i: int|
        0 <= i < line.len() ==> #[trigger] p[start + i] == (if line[i] <= 4 {
            0x3Fu8
        } else {
            line[i]
        })
}

/// `BOS + listing + SEP + line + SOO`, with the listing truncated for the line.
pub open spec fn spec_prompt(listing: Seq<&str>, line: Seq<u8>, ctx: int) -> Seq<u8> {
    seq![BOS] + spec_join(spec_truncate(listing, line.len() as int, ctx)) + seq![SEP] + sanitize(
        line,
    ) + seq![SOO]
}

proof fn lemma_join_len(names: Seq<&str>)
    ensures
        spec_join(names).len() == listing_len(names, names.len() as int),
    decreases names.len(),
{
    if names.len() == 1 {
        assert(listing_len(names, 0) == 0);
    } else if names.len() > 1 {
        let rest = names.drop_last();
        lemma_join_len(rest);
        lemma_listing_len_take(names, names.len() - 1, names.len() - 1);
        assert(rest =~= names.take(names.len() - 1));
        assert(listing_len(rest, rest.len() as int) == listing_len(names, names.len() - 1));
        assert(names.last() == names[names.len() - 1]);
    }
}

/// Builds the prompt `BOS + listing + SEP + line + SOO`. `line` is the raw typed
/// bytes without the newline; bytes that collide with the special tokens are
/// replaced by `?`, nothing else is touched.
pub fn build_prompt(listing: &[&str], line: &[u8], ctx: usize) -> (p: Vec<u8>)
    ensures
        p@ == spec_prompt(listing@, line@, ctx as int),
        line@.len() + 4 + OUTPUT_RESERVE <= ctx ==> p@.len() + OUTPUT_RESERVE + 1 <= ctx,
        typed_line_kept(p@, line@),
{
    let mut clean: Vec<u8> = Vec::new();
    let mut j: usize = 0;
    while j < line.len()
        invariant
            j <= line@.len(),
            clean@ == sanitize(line@).take(j as int),
        decreases line@.len() - j,
    {
        let b = line[j];
        clean.push(if b <= EOS { 0x3F } else { b });
        assert(clean@ =~= sanitize(line@).take(j + 1));
        j = j + 1;
    }
    assert(clean@ =~= sanitize(line@));
    let kept = truncate_listing(listing, clean.len(), ctx);

    let mut p: Vec<u8> = Vec::new();
    p.push(BOS);
    let mut i: usize = 0;
    while i < kept.len()
        invariant
            i <= kept@.len(),
            p@ == seq![BOS] + spec_join(kept@.take(i as int)),
        decreases kept@.len() - i,
    {
        if i > 0 {
            p.push(0x20);
        }
        let bytes = kept[i].as_bytes();
        let ghost before = p@;
        let mut k: usize = 0;
        while k < bytes.len()
            invariant
                k <= bytes@.len(),
                p@ == before + bytes@.take(k as int),
            decreases bytes@.len() - k,
        {
            p.push(bytes[k]);
            assert(p@ =~= before + bytes@.take(k + 1));
            k = k + 1;
        }
        assert(bytes@.take(bytes@.len() as int) =~= bytes@);
        assert(kept@.take(i + 1).drop_last() =~= kept@.take(i as int));
        i = i + 1;
    }
    assert(kept@.take(kept@.len() as int) =~= kept@);
    p.push(SEP);
    let mut j: usize = 0;
    let ghost before = p@;
    while j < clean.len()
        invariant
            j <= clean@.len(),
            p@ == before + clean@.take(j as int),
        decreases clean@.len() - j,
    {
        p.push(clean[j]);
        assert(p@ =~= before + clean@.take(j + 1));
        j = j + 1;
    }
    assert(clean@.take(clean@.len() as int) =~= clean@);
    p.push(SOO);
    proof {
        law_prompt_keeps_typed_bytes(listing@, line@, ctx as int);
        let budget = spec_budget(line@.len() as int, ctx as int);
        let c = kept_count(listing@, budget, listing@.len() as int);
        lemma_kept_count_bounds(listing@, budget, listing@.len() as int);
        lemma_join_len(kept@);
        lemma_listing_len_take(listing@, c, c);
        assert(p@ =~= spec_prompt(listing@, line@, ctx as int));
    }
    p
}


/// What the model asked the shell to do.
#[derive(Debug, PartialEq, Eq)]
pub enum Intent {
    Print(String),
    Read(String),
    Write(String, String),
    Create(String),
    Delete(String),
    List,
    Time,
    Reboot,
    /// The trained answer (`NONE`) for chitchat and garbage; not a parse failure.
    Nothing,
}

/// An intent with its strings taken as character sequences.
pub enum IntentView {
    Print(Seq<char>),
    Read(Seq<char>),
    Write(Seq<char>, Seq<char>),
    Create(Seq<char>),
    Delete(Seq<char>),
    List,
    Time,
    Reboot,
    Nothing,
}

impl View for Intent {
    type V = IntentView;

    open spec fn view(&self) -> IntentView {
        match self {
            Intent::Print(s) => IntentView::Print(s@),
            Intent::Read(s) => IntentView::Read(s@),
            Intent::Write(p, t) => IntentView::Write(p@, t@),
            Intent::Create(s) => IntentView::Create(s@),
            Intent::Delete(s) => IntentView::Delete(s@),
            Intent::List => IntentView::List,
            Intent::Time => IntentView::Time,
            Intent::Reboot => IntentView::Reboot,
            Intent::Nothing => IntentView::Nothing,
        }
    }
}

/// `TIME`
pub open spec fn lit_time() -> Seq<u8> {
    seq![0x54u8, 0x49, 0x4D, 0x45]
}

/// `REBOOT`
pub open spec fn lit_reboot() -> Seq<u8> {
    seq![0x52u8, 0x45, 0x42, 0x4F, 0x4F, 0x54]
}

/// `NONE`
pub open spec fn lit_none() -> Seq<u8> {
    seq![0x4Eu8, 0x4F, 0x4E, 0x45]
}

/// `LIST("/")`
pub open spec fn lit_list_root() -> Seq<u8> {
    seq![0x4Cu8, 0x49, 0x53, 0x54, 0x28, 0x22, 0x2F, 0x22, 0x29]
}

/// `PRINT`
pub open spec fn lit_print() -> Seq<u8> {
    seq![0x50u8, 0x52, 0x49, 0x4E, 0x54]
}

/// `READ`
pub open spec fn lit_read() -> Seq<u8> {
    seq![0x52u8, 0x45, 0x41, 0x44]
}

/// `CREATE`
pub open spec fn lit_create() -> Seq<u8> {
    seq![0x43u8, 0x52, 0x45, 0x41, 0x54, 0x45]
}

/// `DELETE`
pub open spec fn lit_delete() -> Seq<u8> {
    seq![0x44u8, 0x45, 0x4C, 0x45, 0x54, 0x45]
}

/// `WRITE`
pub open spec fn lit_write() -> Seq<u8> {
    seq![0x57u8, 0x52, 0x49, 0x54, 0x45]
}

/// `("`, which opens an argument list.
pub open spec fn lit_open() -> Seq<u8> {
    seq![0x28u8, 0x22]
}

/// `")`, which closes an argument list.
pub open spec fn lit_close() -> Seq<u8> {
    seq![0x22u8, 0x29]
}

/// `", "`, between the two arguments of WRITE.
pub open spec fn lit_mid() -> Seq<u8> {
    seq![0x22u8, 0x2C, 0x20, 0x22]
}

/// An absolute path other than the root itself.
pub open spec fn spec_ok_path(s: Seq<u8>) -> bool {
    s.len() > 1 && s[0] == 0x2F && spec_ok_text(s)
}

/// The answer ends before its first special byte (0 to 4), or at its end.
pub open spec fn answer_end(out: Seq<u8>) -> int
    decreases out.len(),
{
    if out.len() == 0 {
        0
    } else if out[0] <= EOS {
        0
    } else {
        1 + answer_end(out.drop_first())
    }
}

/// The intent spelled by the bytes `t` (taken from before the first special byte).
pub open spec fn spec_parse_text(t: Seq<u8>) -> Option<IntentView> {
    if !valid_utf8(t) {
        Option::None
    } else if t == lit_time() {
        Some(IntentView::Time)
    } else if t == lit_reboot() {
        Some(IntentView::Reboot)
    } else if t == lit_none() {
        Some(IntentView::Nothing)
    } else if t == lit_list_root() {
        Some(IntentView::List)
    } else {
        match spec_find(t, lit_open()) {
            Option::None => Option::None,
            Some(open) => {
                if !spec_ends_with(t, lit_close()) || t.len() - open < 4 {
                    Option::None
                } else {
                    let verb = t.subrange(0, open);
                    let inner = t.subrange(open + 2, t.len() - 2);
                    if verb == lit_print() {
                        if spec_ok_text(inner) {
                            Some(IntentView::Print(decode_utf8(inner)))
                        } else {
                            Option::None
                        }
                    } else if verb == lit_read() {
                        if spec_ok_path(inner) {
                            Some(IntentView::Read(decode_utf8(inner)))
                        } else {
                            Option::None
                        }
                    } else if verb == lit_create() {
                        if spec_ok_path(inner) {
                            Some(IntentView::Create(decode_utf8(inner)))
                        } else {
                            Option::None
                        }
                    } else if verb == lit_delete() {
                        if spec_ok_path(inner) {
                            Some(IntentView::Delete(decode_utf8(inner)))
                        } else {
                            Option::None
                        }
                    } else if verb == lit_write() {
                        match spec_find(inner, lit_mid()) {
                            Option::None => Option::None,
                            Some(mid) => {
                                let path = inner.take(mid);
                                let text = inner.skip(mid + 4);
                                if spec_ok_path(path) && spec_ok_text(text) {
                                    Some(IntentView::Write(decode_utf8(path), decode_utf8(text)))
                                } else {
                                    Option::None
                                }
                            },
                        }
                    } else {
                        Option::None
                    }
                }
            },
        }
    }
}

/// The intent that `parse` reads from the model's answer `out`.
pub open spec fn spec_parse(out: Seq<u8>) -> Option<IntentView> {
    spec_parse_text(out.take(answer_end(out)))
}

fn ok_text(s: &str) -> (r: bool)
    ensures
        r == spec_ok_text(s.spec_bytes()),
{
    ok_text_bytes(s.as_bytes())
}

fn ok_path(s: &str) -> (r: bool)
    ensures
        r == spec_ok_path(s.spec_bytes()),
{
    let b = s.as_bytes();
    b.len() > 1 && b[0] == 0x2F && ok_text(s)
}

proof fn lemma_answer_end(out: Seq<u8>, i: int)
    requires
        0 <= i <= out.len(),
        forall|j: int| 0 <= j < i ==> out[j] > EOS,
        i == out.len() || out[i] <= EOS,
    ensures
        answer_end(out) == i,
    decreases i,
{
    if i > 0 {
        let rest = out.drop_first();
        assert forall|j: int| 0 <= j < i - 1 implies rest[j] > EOS by {
            assert(rest[j] == out[j + 1]);
        }
        if i < out.len() {
            assert(rest[i - 1] == out[i]);
        }
        lemma_answer_end(rest, i - 1);
    }
}

/// Reads the intent from the model's answer. Everything from the first special
/// byte on is ignored. The grammar is deliberately dumb: match the verb up to
/// `("`, then scan for `", "` and `")`. Anything that does not parse is `None`.
pub fn parse(out: &[u8]) -> (r: Option<Intent>)
    ensures
        match r {
            Some(i) => spec_parse(out@) == Some(i@),
            Option::None => spec_parse(out@) is None,
        },
{
    let mut end: usize = 0;
    while end < out.len() && out[end] > EOS
        invariant
            end <= out@.len(),
            forall|j: int| 0 <= j < end ==> out@[j] > EOS,
        decreases out@.len() - end,
    {
        end = end + 1;
    }
    proof {
        lemma_answer_end(out@, end as int);
    }
    let t = &out[0..end];
    assert(t@ == out@.take(answer_end(out@)));
    let s = match str_from_utf8(t) {
        Some(s) => s,
        Option::None => return Option::None,
    };
    let time: [u8; 4] = [0x54, 0x49, 0x4D, 0x45];
    let reboot: [u8; 6] = [0x52, 0x45, 0x42, 0x4F, 0x4F, 0x54];
    let none: [u8; 4] = [0x4E, 0x4F, 0x4E, 0x45];
    let list_root: [u8; 9] = [0x4C, 0x49, 0x53, 0x54, 0x28, 0x22, 0x2F, 0x22, 0x29];
    assert(time@ =~= lit_time());
    assert(reboot@ =~= lit_reboot());
    assert(none@ =~= lit_none());
    assert(list_root@ =~= lit_list_root());
    if bytes_eq(t, time.as_slice()) {
        return Some(Intent::Time);
    }
    if bytes_eq(t, reboot.as_slice()) {
        return Some(Intent::Reboot);
    }
    if bytes_eq(t, none.as_slice()) {
        return Some(Intent::Nothing);
    }
    if bytes_eq(t, list_root.as_slice()) {
        return Some(Intent::List);
    }
    let open_lit: [u8; 2] = [0x28, 0x22];
    let close_lit: [u8; 2] = [0x22, 0x29];
    assert(open_lit@ =~= lit_open());
    assert(close_lit@ =~= lit_close());
    let open = match find(t, open_lit.as_slice()) {
        Some(o) => o,
        Option::None => return Option::None,
    };
    if !ends_with(t, close_lit.as_slice()) || t.len() - open < 4 {
        return Option::None;
    }
    let len = t.len();
    proof {
        assert(t@.subrange(open as int, open + 2) == lit_open());
        assert(t@[open as int + 1] == t@.subrange(open as int, open + 2)[1]);
        assert(t@.subrange(len - 2, len as int) == lit_close());
        assert(t@[len - 2] == t@.subrange(len - 2, len as int)[0]);
        lemma_ascii_cut(t@, open + 1);
        let w = t@.skip(open + 2);
        assert(w[len - 4 - open] == t@[len - 2]);
        lemma_ascii_cut(w, len - 4 - open);
        assert(w.take(len - 4 - open) =~= t@.subrange(open + 2, len - 2));
    }
    let verb = &t[0..open];
    let inner = &t[open + 2..len - 2];
    let print: [u8; 5] = [0x50, 0x52, 0x49, 0x4E, 0x54];
    let read: [u8; 4] = [0x52, 0x45, 0x41, 0x44];
    let create: [u8; 6] = [0x43, 0x52, 0x45, 0x41, 0x54, 0x45];
    let delete: [u8; 6] = [0x44, 0x45, 0x4C, 0x45, 0x54, 0x45];
    let write: [u8; 5] = [0x57, 0x52, 0x49, 0x54, 0x45];
    assert(print@ =~= lit_print());
    assert(read@ =~= lit_read());
    assert(create@ =~= lit_create());
    assert(delete@ =~= lit_delete());
    assert(write@ =~= lit_write());
    let inner_s = str_from_utf8(inner).unwrap();
    if bytes_eq(verb, print.as_slice()) {
        if ok_text(inner_s) {
            return Some(Intent::Print(owned(inner_s)));
        }
        return Option::None;
    }
    if bytes_eq(verb, read.as_slice()) {
        if ok_path(inner_s) {
            return Some(Intent::Read(owned(inner_s)));
        }
        return Option::None;
    }
    if bytes_eq(verb, create.as_slice()) {
        if ok_path(inner_s) {
            return Some(Intent::Create(owned(inner_s)));
        }
        return Option::None;
    }
    if bytes_eq(verb, delete.as_slice()) {
        if ok_path(inner_s) {
            return Some(Intent::Delete(owned(inner_s)));
        }
        return Option::None;
    }
    if bytes_eq(verb, write.as_slice()) {
        let mid_lit: [u8; 4] = [0x22, 0x2C, 0x20, 0x22];
        assert(mid_lit@ =~= lit_mid());
        let mid = match find(inner, mid_lit.as_slice()) {
            Some(m) => m,
            Option::None => return Option::None,
        };
        proof {
            let ib = inner@;
            assert(ib.subrange(mid as int, mid + 4) == lit_mid());
            assert(ib[mid as int] == ib.subrange(mid as int, mid + 4)[0]);
            assert(ib[mid + 3] == ib.subrange(mid as int, mid + 4)[3]);
            lemma_ascii_cut(ib, mid as int);
            lemma_ascii_cut(ib, mid + 3);
            assert(ib.take(mid as int) =~= ib.subrange(0, mid as int));
            assert(ib.skip(mid + 4) =~= ib.subrange(mid + 4, ib.len() as int));
        }
        let path_s = str_from_utf8(&inner[0..mid]).unwrap();
        let text_s = str_from_utf8(&inner[mid + 4..inner.len()]).unwrap();
        if ok_path(path_s) && ok_text(text_s) {
            return Some(Intent::Write(owned(path_s), owned(text_s)));
        }
        return Option::None;
    }
    Option::None
}


/// The keeping rule of `truncate_listing`: the kept names are the longest run
/// of leading names whose space-joined length fits the budget.
pub proof fn law_truncate_keeps_longest_fitting_prefix(names: Seq<&str>, line_len: int, ctx: int)
    ensures
        ({
            let budget = spec_budget(line_len, ctx);
            let k = kept_count(names, budget, names.len() as int);
            &&& 0 <= k <= names.len()
            &&& spec_truncate(names, line_len, ctx) == names.take(k)
            &&& listing_len(names, k) <= budget
            &&& (k == names.len() || listing_len(names, k + 1) > budget)
        }),
{
    let budget = spec_budget(line_len, ctx);
    lemma_kept_count_bounds(names, budget, names.len() as int);
    lemma_kept_count_maximal(names, budget, names.len() as int);
}

proof fn lemma_kept_count_maximal(names: Seq<&str>, budget: int, n: int)
    requires
        0 <= n,
    ensures
        kept_count(names, budget, n) == n || listing_len(names, kept_count(names, budget, n) + 1)
            > budget,
    decreases n,
{
    if n > 0 {
        lemma_kept_count_maximal(names, budget, n - 1);
    }
}

proof fn lemma_kept_count_step(names: Seq<&str>, budget: int, n: int)
    requires
        n > 0,
    ensures
        kept_count(names, budget, n - 1) <= kept_count(names, budget, n),
{
}

proof fn lemma_kept_count_monotone(names: Seq<&str>, b1: int, b2: int, n: int)
    requires
        0 <= n,
        b1 <= b2,
    ensures
        kept_count(names, b1, n) <= kept_count(names, b2, n),
    decreases n,
{
    if n > 0 {
        lemma_kept_count_monotone(names, b1, b2, n - 1);
        lemma_kept_count_bounds(names, b2, n - 1);
        lemma_kept_count_step(names, b2, n);
    }
}

/// `a` is a leading part of `b`.
pub open spec fn is_prefix(a: Seq<&str>, b: Seq<&str>) -> bool {
    a.len() <= b.len() && b.take(a.len() as int) == a
}

/// A longer command, or a smaller context, only drops names from the end of
/// the kept listing.
pub proof fn law_truncate_shrinks_from_the_end(
    names: Seq<&str>,
    l1: int,
    l2: int,
    c1: int,
    c2: int,
)
    requires
        0 <= l1 <= l2,
        c1 <= c2,
    ensures
        is_prefix(spec_truncate(names, l2, c1), spec_truncate(names, l1, c1)),
        is_prefix(spec_truncate(names, l1, c1), spec_truncate(names, l1, c2)),
{
    let n = names.len() as int;
    assert(spec_budget(l2, c1) <= spec_budget(l1, c1));
    assert(spec_budget(l1, c1) <= spec_budget(l1, c2));
    lemma_kept_count_monotone(names, spec_budget(l2, c1), spec_budget(l1, c1), n);
    lemma_kept_count_monotone(names, spec_budget(l1, c1), spec_budget(l1, c2), n);
    lemma_kept_count_bounds(names, spec_budget(l2, c1), n);
    lemma_kept_count_bounds(names, spec_budget(l1, c1), n);
    lemma_kept_count_bounds(names, spec_budget(l1, c2), n);
    let k1 = kept_count(names, spec_budget(l2, c1), n);
    let k2 = kept_count(names, spec_budget(l1, c1), n);
    let k3 = kept_count(names, spec_budget(l1, c2), n);
    assert(names.take(k2).take(k1) =~= names.take(k1));
    assert(names.take(k3).take(k2) =~= names.take(k2));
}

/// No name holds a byte that collides with the special tokens.
pub open spec fn names_plain(names: Seq<&str>) -> bool {
    forall|i: int, j: int|
        0 <= i < names.len() && 0 <= j < names[i].spec_bytes().len() ==> #[trigger] names[i].spec_bytes()[j]
            > EOS
}

proof fn lemma_join_plain(names: Seq<&str>)
    requires
        names_plain(names),
    ensures
        forall|j: int| 0 <= j < spec_join(names).len() ==> #[trigger] spec_join(names)[j] > EOS,
    decreases names.len(),
{
    if names.len() == 1 {
        assert forall|j: int| 0 <= j < spec_join(names).len() implies #[trigger] spec_join(names)[j]
            > EOS by {
            assert(names[0].spec_bytes()[j] > EOS);
        }
    } else if names.len() > 1 {
        let rest = names.drop_last();
        assert(names_plain(rest)) by {
            assert forall|i: int, j: int|
                0 <= i < rest.len() && 0 <= j < rest[i].spec_bytes().len() implies #[trigger] rest[i].spec_bytes()[j]
                > EOS by {
                assert(rest[i] == names[i]);
            }
        }
        lemma_join_plain(rest);
        let a = spec_join(rest);
        let l = names.last().spec_bytes();
        assert forall|j: int| 0 <= j < spec_join(names).len() implies #[trigger] spec_join(names)[j]
            > EOS by {
            if j < a.len() {
                assert(spec_join(names)[j] == a[j]);
            } else if j > a.len() {
                assert(spec_join(names)[j] == l[j - a.len() - 1]);
                assert(names[names.len() - 1].spec_bytes()[j - a.len() - 1] > EOS);
            }
        }
    }
}

/// Prompt layout: `BOS` first, `SOO` last, exactly one `SEP` right after the
/// listing, and no other byte at or below `EOS`, whatever bytes the user typed
/// (provided the file names hold none).
pub proof fn law_prompt_layout(listing: Seq<&str>, line: Seq<u8>, ctx: int)
    requires
        names_plain(listing),
    ensures
        ({
            let p = spec_prompt(listing, line, ctx);
            let sep = 1 + spec_join(spec_truncate(listing, line.len() as int, ctx)).len() as int;
            &&& p[0] == BOS
            &&& p[p.len() - 1] == SOO
            &&& p[sep] == SEP
            &&& forall|i: int| 0 < i < p.len() - 1 && i != sep ==> #[trigger] p[i] > EOS
        }),
{
    let kept = spec_truncate(listing, line.len() as int, ctx);
    let budget = spec_budget(line.len() as int, ctx);
    lemma_kept_count_bounds(listing, budget, listing.len() as int);
    assert(names_plain(kept)) by {
        assert forall|i: int, j: int|
            0 <= i < kept.len() && 0 <= j < kept[i].spec_bytes().len() implies #[trigger] kept[i].spec_bytes()[j]
            > EOS by {
            assert(kept[i] == listing[i]);
        }
    }
    lemma_join_plain(kept);
    let p = spec_prompt(listing, line, ctx);
    let jn = spec_join(kept);
    let cl = sanitize(line);
    let sep = 1 + jn.len() as int;
    assert forall|i: int| 0 < i < p.len() - 1 && i != sep implies #[trigger] p[i] > EOS by {
        if i < sep {
            assert(p[i] == jn[i - 1]);
        } else {
            assert(p[i] == cl[i - sep - 1]);
        }
    }
}

/// The typed line reaches the prompt unchanged (no case folding, no
/// trimming): only the special bytes 0 to 4 are replaced, by `?`.
pub proof fn law_prompt_keeps_typed_bytes(listing: Seq<&str>, line: Seq<u8>, ctx: int)
    ensures
        typed_line_kept(spec_prompt(listing, line, ctx), line),
{
    let p = spec_prompt(listing, line, ctx);
    let head = seq![BOS] + spec_join(spec_truncate(listing, line.len() as int, ctx));
    let cl = sanitize(line);
    assert(p =~= head + seq![SEP] + cl + seq![SOO]);
    let start = p.len() - 1 - line.len();
    assert(start == head.len() + 1);
    assert forall|i: int| 0 <= i < line.len() implies #[trigger] p[start + i] == (if line[i]
        <= 4 {
        0x3Fu8
    } else {
        line[i]
    }) by {
        assert(p[start + i] == cl[i]);
    }
}

/// In valid UTF-8 `t` of the shape `VERB("ARG")`, the argument between the
/// quotes is valid UTF-8 itself.
pub proof fn lemma_call_arg_valid(t: Seq<u8>)
    requires
        valid_utf8(t),
        spec_find(t, lit_open()) is Some,
        spec_ends_with(t, lit_close()),
        t.len() >= spec_find(t, lit_open())->0 + 4,
    ensures
        valid_utf8(t.subrange(spec_find(t, lit_open())->0 + 2, t.len() - 2)),
{
    let o = spec_find(t, lit_open())->0;
    let len = t.len() as int;
    lemma_find_from_sound(t, lit_open(), 0);
    assert(t[o + 1] == t.subrange(o, o + 2)[1]);
    assert(t[len - 2] == t.subrange(len - 2, len)[0]);
    lemma_ascii_cut(t, o + 1);
    let w = t.skip(o + 2);
    assert(w[len - 4 - o] == t[len - 2]);
    lemma_ascii_cut(w, len - 4 - o);
    assert(w.take(len - 4 - o) =~= t.subrange(o + 2, len - 2));
}

/// In valid UTF-8 `a` holding `", "`, what stands before and after its first
/// occurrence is valid UTF-8.
pub proof fn lemma_write_args_valid(a: Seq<u8>)
    requires
        valid_utf8(a),
        spec_find(a, lit_mid()) is Some,
    ensures
        valid_utf8(a.take(spec_find(a, lit_mid())->0)),
        valid_utf8(a.skip(spec_find(a, lit_mid())->0 + 4)),
{
    let m = spec_find(a, lit_mid())->0;
    lemma_find_from_sound(a, lit_mid(), 0);
    assert(a[m] == a.subrange(m, m + 4)[0]);
    assert(a[m + 3] == a.subrange(m, m + 4)[3]);
    lemma_ascii_cut(a, m);
    lemma_ascii_cut(a, m + 3);
}

/// The UTF-8 bytes of an absolute path other than the root itself: `/`, at
/// least one more byte, and neither `"` nor `\` anywhere.
pub open spec fn absolute_path_bytes(b: Seq<u8>) -> bool {
    &&& b.len() > 1
    &&& b[0] == 0x2F
    &&& forall|i: int| 0 <= i < b.len() ==> b[i] != 0x22 && b[i] != 0x5C
}

/// UTF-8 bytes holding neither `"` nor `\`.
pub open spec fn quote_free_bytes(b: Seq<u8>) -> bool {
    forall|i: int| 0 <= i < b.len() ==> b[i] != 0x22 && b[i] != 0x5C
}

/// Whatever the answer, an intent that touches a file names it by an
/// absolute path (never the root itself), and no argument holds a quote or a
/// backslash.
pub proof fn law_parse_paths_are_absolute(out: Seq<u8>)
    ensures
        spec_parse(out) matches Some(IntentView::Read(p)) ==> absolute_path_bytes(encode_utf8(p)),
        spec_parse(out) matches Some(IntentView::Create(p)) ==> absolute_path_bytes(
            encode_utf8(p),
        ),
        spec_parse(out) matches Some(IntentView::Delete(p)) ==> absolute_path_bytes(
            encode_utf8(p),
        ),
        spec_parse(out) matches Some(IntentView::Write(p, x)) ==> absolute_path_bytes(
            encode_utf8(p),
        ) && quote_free_bytes(encode_utf8(x)),
        spec_parse(out) matches Some(IntentView::Print(x)) ==> quote_free_bytes(encode_utf8(x)),
{
    let t = out.take(answer_end(out));
    if valid_utf8(t) && spec_find(t, lit_open()) is Some && spec_ends_with(t, lit_close())
        && t.len() >= spec_find(t, lit_open())->0 + 4 {
        let o = spec_find(t, lit_open())->0;
        let inner = t.subrange(o + 2, t.len() - 2);
        lemma_call_arg_valid(t);
        decode_utf8_encode_utf8(inner);
        if spec_find(inner, lit_mid()) is Some {
            let m = spec_find(inner, lit_mid())->0;
            lemma_write_args_valid(inner);
            decode_utf8_encode_utf8(inner.take(m));
            decode_utf8_encode_utf8(inner.skip(m + 4));
        }
    }
}

/// The answer ends at its first special byte: whatever follows an `EOS` after
/// a plain answer is ignored.
pub proof fn law_parse_stops_at_eos(answer: Seq<u8>, rest: Seq<u8>)
    requires
        forall|i: int| 0 <= i < answer.len() ==> answer[i] > EOS,
    ensures
        spec_parse(answer + seq![EOS] + rest) == spec_parse_text(answer),
        spec_parse(answer) == spec_parse_text(answer),
{
    let out = answer + seq![EOS] + rest;
    lemma_answer_end(out, answer.len() as int);
    assert(out.take(answer.len() as int) =~= answer);
    lemma_answer_end(answer, answer.len() as int);
    assert(answer.take(answer.len() as int) =~= answer);
}

pub proof fn lemma_ascii_valid(s: Seq<u8>)
    requires
        forall|i: int| 0 <= i < s.len() ==> s[i] < 0x80,
    ensures
        valid_utf8(s),
    decreases s.len(),
{
    if s.len() > 0 {
        let rest = s.drop_first();
        let b0 = s[0];
        assert(b0 & 0x7F <= 0x7F) by (bit_vector);
        assert(length_of_first_scalar(s) == 1);
        assert(pop_first_scalar(s) =~= rest);
        assert forall|i: int| 0 <= i < rest.len() implies rest[i] < 0x80 by {
            assert(rest[i] == s[i + 1]);
        }
        lemma_ascii_valid(rest);
    }
}

pub proof fn lemma_find_at(h: Seq<u8>, p: Seq<u8>, i: int, k: int)
    requires
        0 <= i <= k,
        k + p.len() <= h.len(),
        h.subrange(k, k + p.len()) == p,
        forall|j: int| i <= j < k ==> #[trigger] h.subrange(j, j + p.len()) != p,
    ensures
        find_from(h, p, i) == Some(k),
    decreases k - i,
{
    if i < k {
        assert(h.subrange(i, i + p.len()) != p);
        lemma_find_at(h, p, i + 1, k);
    }
}

/// One of the five verbs that take arguments: PRINT, READ, CREATE, DELETE, WRITE.
pub open spec fn call_verb(verb: Seq<u8>) -> bool {
    verb == lit_print() || verb == lit_read() || verb == lit_create() || verb == lit_delete()
        || verb == lit_write()
}

/// The answer `VERB("arg")`.
pub open spec fn render_call(verb: Seq<u8>, arg: Seq<u8>) -> Seq<u8> {
    verb + lit_open() + arg + lit_close()
}

pub proof fn lemma_call_shape(verb: Seq<u8>, arg: Seq<u8>)
    requires
        call_verb(verb),
        valid_utf8(arg),
    ensures
        ({
            let t = render_call(verb, arg);
            &&& valid_utf8(t)
            &&& t != lit_time() && t != lit_reboot() && t != lit_none() && t != lit_list_root()
            &&& spec_find(t, lit_open()) == Some(verb.len() as int)
            &&& spec_ends_with(t, lit_close())
            &&& t.len() >= verb.len() + 4
            &&& t.subrange(0, verb.len() as int) == verb
            &&& t.subrange(verb.len() + 2int, t.len() - 2) == arg
        }),
{
    let t = render_call(verb, arg);
    let v = verb.len() as int;
    assert(4 <= v <= 6);
    assert forall|i: int| 0 <= i < v implies verb[i] < 0x80 && verb[i] != 0x28 && verb[i] >= 0x41 by {
    }
    lemma_ascii_valid(verb);
    lemma_ascii_valid(lit_open());
    lemma_ascii_valid(lit_close());
    valid_utf8_concat(verb, lit_open());
    valid_utf8_concat(verb + lit_open(), arg);
    valid_utf8_concat(verb + lit_open() + arg, lit_close());
    assert(t[0] == verb[0]);
    assert(t[0] != 0x4C);
    assert(t != lit_list_root()) by {
        assert(lit_list_root()[0] == 0x4C);
    }
    assert(t.len() >= 8);
    assert(t.subrange(v, v + 2) =~= lit_open());
    assert forall|j: int| 0 <= j < v implies #[trigger] t.subrange(j, j + 2) != lit_open() by {
        assert(t.subrange(j, j + 2)[0] == verb[j]);
    }
    lemma_find_at(t, lit_open(), 0, v);
    assert(t.subrange(t.len() - 2, t.len() as int) =~= lit_close());
    assert(t.subrange(0, v) =~= verb);
    assert(t.subrange(v + 2, t.len() - 2) =~= arg);
}

/// The answer `PRINT("text")` reads back as printing that text.
pub proof fn law_parse_print(text: Seq<u8>)
    requires
        valid_utf8(text),
        spec_ok_text(text),
    ensures
        spec_parse_text(render_call(lit_print(), text)) == Some(IntentView::Print(decode_utf8(text))),
{
    lemma_call_shape(lit_print(), text);
}

/// `READ`, `CREATE` and `DELETE` of an absolute path read back as that action
/// on that path.
pub proof fn law_parse_path_call(verb: Seq<u8>, path: Seq<u8>)
    requires
        verb == lit_read() || verb == lit_create() || verb == lit_delete(),
        valid_utf8(path),
        spec_ok_path(path),
    ensures
        spec_parse_text(render_call(verb, path)) == if verb == lit_read() {
            Some(IntentView::Read(decode_utf8(path)))
        } else if verb == lit_create() {
            Some(IntentView::Create(decode_utf8(path)))
        } else {
            Some(IntentView::Delete(decode_utf8(path)))
        },
{
    lemma_call_shape(verb, path);
    assert(lit_print()[0] != lit_read()[0]);
    assert(lit_print()[0] != lit_create()[0]);
    assert(lit_print()[0] != lit_delete()[0]);
    assert(lit_read()[0] != lit_create()[0]);
    assert(lit_read()[0] != lit_delete()[0]);
    assert(lit_create()[0] != lit_delete()[0]);
}

/// `WRITE("path", "text")` reads back as writing that text to that path.
pub proof fn law_parse_write(path: Seq<u8>, text: Seq<u8>)
    requires
        valid_utf8(path),
        valid_utf8(text),
        spec_ok_path(path),
        spec_ok_text(text),
    ensures
        spec_parse_text(render_call(lit_write(), path + lit_mid() + text)) == Some(
            IntentView::Write(decode_utf8(path), decode_utf8(text)),
        ),
{
    let arg = path + lit_mid() + text;
    let m = path.len() as int;
    lemma_ascii_valid(lit_mid());
    valid_utf8_concat(path, lit_mid());
    valid_utf8_concat(path + lit_mid(), text);
    lemma_call_shape(lit_write(), arg);
    assert(arg.subrange(m, m + 4) =~= lit_mid());
    assert forall|j: int| 0 <= j < m implies #[trigger] arg.subrange(j, j + 4) != lit_mid() by {
        assert(arg.subrange(j, j + 4)[0] == path[j]);
    }
    lemma_find_at(arg, lit_mid(), 0, m);
    assert(arg.take(m) =~= path);
    assert(arg.skip(m + 4) =~= text);
}

} // verus!
