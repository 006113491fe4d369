//! Completion detection for remote commands. Each command is wrapped so that the
//! remote shell prints a sentinel line carrying the invocation's id and the exit
//! status; the output stream is scanned byte by byte, in whatever chunks it
//! arrives, until the sentinel of this invocation closes a line.

use vstd::prelude::*;
use vstd::utf8::{valid_utf8, decode_utf8, encode_utf8};

verus! {

/// The bytes that open a sentinel: ` [[ END-OF-TASK `.
pub open spec fn sentinel_head() -> Seq<u8> {
    seq![32u8, 91, 91, 32, 69, 78, 68, 45, 79, 70, 45, 84, 65, 83, 75, 32]
}

/// The bytes that close a sentinel: ` ]] `.
pub open spec fn sentinel_tail() -> Seq<u8> {
    seq![32u8, 93, 93, 32]
}

/// The sentinel of invocation `id` with exit-status field `code`.
pub open spec fn sentinel(id: Seq<u8>, code: Seq<u8>) -> Seq<u8> {
    sentinel_head() + id + seq![32u8] + code + sentinel_tail()
}

/// The index of the last space among the first `n` bytes of `s`, or -1.
pub open spec fn last_space_before(s: Seq<u8>, n: int) -> int
    decreases n,
{
    if n <= 0 {
        -1
    } else if s[n - 1] == 32u8 {
        n - 1
    } else {
        last_space_before(s, n - 1)
    }
}

/// Where the sentinel of `id` ends the line `line`, and its status field: the
/// line must end with `sentinel(id, code)` where `code` is the non-empty run of
/// non-space bytes before the closing ` ]] `.
pub open spec fn line_sentinel(line: Seq<u8>, id: Seq<u8>) -> Option<(int, Seq<u8>)> {
    let n = line.len() as int;
    if n < 4 || line.subrange(n - 4, n) != sentinel_tail() {
        None
    } else {
        let k = last_space_before(line, n - 4);
        let code = line.subrange(k + 1, n - 4);
        let s = sentinel(id, code);
        if code.len() > 0 && s.len() <= n && line.subrange(n - s.len(), n) == s {
            Some((n - s.len(), code))
        } else {
            None
        }
    }
}

/// The scanner's state: every byte of standard output so far, where the line
/// being read starts, and, once found, where the sentinel started and its status
/// field.
pub struct ScanView {
    pub out: Seq<u8>,
    pub line_start: int,
    pub found: Option<(int, Seq<u8>)>,
}

/// The state before any output.
pub open spec fn scan_start() -> ScanView {
    ScanView { out: Seq::empty(), line_start: 0, found: None }
}

/// One byte of standard output read by the scanner of invocation `id`. Once the
/// sentinel is found nothing changes any more.
pub open spec fn scan_step(id: Seq<u8>, st: ScanView, b: u8) -> ScanView {
    if st.found is Some {
        st
    } else if b == 10u8 {
        let line = st.out.subrange(st.line_start, st.out.len() as int);
        match line_sentinel(line, id) {
            Some((s, code)) => ScanView { out: st.out.push(b), line_start: (st.out.len() + 1) as int, found: Some((st.line_start + s, code)) },
            None => ScanView { out: st.out.push(b), line_start: (st.out.len() + 1) as int, found: None },
        }
    } else {
        ScanView { out: st.out.push(b), line_start: st.line_start, found: None }
    }
}

/// The bytes `bs` read one after another.
pub open spec fn scan_all(id: Seq<u8>, st: ScanView, bs: Seq<u8>) -> ScanView
    decreases bs.len(),
{
    if bs.len() == 0 {
        st
    } else {
        scan_step(id, scan_all(id, st, bs.drop_last()), bs.last())
    }
}

/// Reading `a` and then `b` is reading `a + b`.
pub proof fn lemma_scan_concat(id: Seq<u8>, st: ScanView, a: Seq<u8>, b: Seq<u8>)
    ensures
        scan_all(id, scan_all(id, st, a), b) == scan_all(id, st, a + b),
    decreases b.len(),
{
    if b.len() == 0 {
        assert(a + b =~= a);
    } else {
        lemma_scan_concat(id, st, a, b.drop_last());
        assert((a + b).drop_last() =~= a + b.drop_last());
        assert((a + b).last() == b.last());
    }
}

/// Once the sentinel is found the state is final: no further output changes it.
pub proof fn lemma_completion_final(id: Seq<u8>, st: ScanView, bs: Seq<u8>)
    requires
        st.found is Some,
    ensures
        scan_all(id, st, bs) == st,
    decreases bs.len(),
{
    if bs.len() > 0 {
        lemma_completion_final(id, st, bs.drop_last());
    }
}

/// The bytes of `chunks`, in order.
pub open spec fn flatten(chunks: Seq<Seq<u8>>) -> Seq<u8>
    decreases chunks.len(),
{
    if chunks.len() == 0 {
        Seq::empty()
    } else {
        flatten(chunks.drop_last()) + chunks.last()
    }
}

/// The chunks read one poll after another.
pub open spec fn scan_chunks(id: Seq<u8>, st: ScanView, chunks: Seq<Seq<u8>>) -> ScanView
    decreases chunks.len(),
{
    if chunks.len() == 0 {
        st
    } else {
        scan_all(id, scan_chunks(id, st, chunks.drop_last()), chunks.last())
    }
}

/// However the output is cut into chunks, reading them one after another gives
/// the same state as reading the whole output at once: the same sentinel
/// position, the same status field and so the same stripped output and exit code.
pub proof fn lemma_chunking_irrelevant(id: Seq<u8>, st: ScanView, chunks: Seq<Seq<u8>>)
    ensures
        scan_chunks(id, st, chunks) == scan_all(id, st, flatten(chunks)),
    decreases chunks.len(),
{
    if chunks.len() == 0 {
        assert(scan_all(id, st, Seq::<u8>::empty()) == st);
    } else {
        lemma_chunking_irrelevant(id, st, chunks.drop_last());
        lemma_scan_concat(id, st, flatten(chunks.drop_last()), chunks.last());
    }
}

/// Whether `s` holds no space.
pub open spec fn no_space(s: Seq<u8>) -> bool {
    forall|i: int| 0 <= i < s.len() ==> s[i] != 32u8
}

proof fn lemma_last_space(s: Seq<u8>, n: int)
    requires
        0 <= n <= s.len(),
    ensures
        -1 <= last_space_before(s, n) < n,
        last_space_before(s, n) >= 0 ==> s[last_space_before(s, n)] == 32u8,
        forall|i: int| last_space_before(s, n) < i < n ==> s[i] != 32u8,
    decreases n,
{
    if n > 0 && s[n - 1] != 32u8 {
        lemma_last_space(s, n - 1);
    }
}

/// A line that ends with the sentinel of `other` is never taken for the sentinel
/// of a different invocation `id`, when neither id holds a space.
pub proof fn lemma_foreign_sentinel_rejected(line: Seq<u8>, id: Seq<u8>, other: Seq<u8>)
    requires
        id != other,
        no_space(id),
        no_space(other),
        line_sentinel(line, other) is Some,
    ensures
        line_sentinel(line, id) is None,
{
    let n = line.len() as int;
    let k = last_space_before(line, n - 4);
    let code = line.subrange(k + 1, n - 4);
    let so = sentinel(other, code);
    let si = sentinel(id, code);
    if line_sentinel(line, id) is Some {
        let lo = so.len() as int;
        let li = si.len() as int;
        let hl = sentinel_head().len() as int;
        let tl = (code.len() + 5) as int;
        assert(line.subrange(n - lo, n) == so);
        assert(line.subrange(n - li, n) == si);
        // Both ids sit right before ` code ]] ` and right after the head's last space.
        assert forall|i: int| 0 <= i < other.len() implies #[trigger] other[i] == line[n - tl - other.len() + i] by {
            assert(so[hl + i] == other[i]);
            assert(line.subrange(n - lo, n)[hl + i] == line[n - lo + hl + i]);
        }
        assert forall|i: int| 0 <= i < id.len() implies #[trigger] id[i] == line[n - tl - id.len() + i] by {
            assert(si[hl + i] == id[i]);
            assert(line.subrange(n - li, n)[hl + i] == line[n - li + hl + i]);
        }
        assert(so[hl - 1] == 32u8);
        assert(si[hl - 1] == 32u8);
        assert(line[n - tl - other.len() - 1] == 32u8) by {
            assert(line.subrange(n - lo, n)[hl - 1] == line[n - lo + hl - 1]);
        }
        assert(line[n - tl - id.len() - 1] == 32u8) by {
            assert(line.subrange(n - li, n)[hl - 1] == line[n - li + hl - 1]);
        }
        if id.len() < other.len() {
            let j = other.len() - id.len() - 1;
            assert(other[j] == line[n - tl - id.len() - 1]);
        } else if other.len() < id.len() {
            let j = id.len() - other.len() - 1;
            assert(id[j] == line[n - tl - other.len() - 1]);
        } else {
            assert(id =~= other);
        }
    }
}

/// The value of the decimal digits `s`.
pub open spec fn decimal_value(s: Seq<u8>) -> int
    decreases s.len(),
{
    if s.len() == 0 {
        0
    } else {
        decimal_value(s.drop_last()) * 10 + (s.last() - 48u8) as int
    }
}

pub open spec fn is_digit(b: u8) -> bool {
    48u8 <= b <= 57u8
}

/// The exit status that a status field spells: one or more decimal digits whose
/// value fits a byte.
pub open spec fn exit_status(code: Seq<u8>) -> Option<u8> {
    if code.len() > 0 && (forall|i: int| 0 <= i < code.len() ==> is_digit(#[trigger] code[i])) && decimal_value(code) <= 255 {
        Some(decimal_value(code) as u8)
    } else {
        None
    }
}

proof fn lemma_value_grows(s: Seq<u8>, k: int)
    requires
        0 <= k <= s.len(),
        forall|i: int| 0 <= i < s.len() ==> is_digit(#[trigger] s[i]),
    ensures
        decimal_value(s) >= decimal_value(s.subrange(0, k)) >= 0,
    decreases s.len(),
{
    if s.len() == 0 {
        assert(s.subrange(0, k) =~= s);
    } else if k == s.len() {
        assert(s.subrange(0, k) =~= s);
        lemma_value_grows(s.drop_last(), k - 1);
        assert(s.drop_last().subrange(0, k - 1) =~= s.drop_last());
    } else {
        lemma_value_grows(s.drop_last(), k);
        assert(s.drop_last().subrange(0, k) =~= s.subrange(0, k));
        lemma_value_grows(s.drop_last(), s.len() - 1);
        assert(s.drop_last().subrange(0, s.len() - 1) =~= s.drop_last());
    }
}

/// Reads a status field as `exit_status` describes.
pub fn parse_exit_status(code: &Vec<u8>) -> (r: Option<u8>)
    ensures
        r == exit_status(code@),
{
    if code.len() == 0 {
        return None;
    }
    let mut v: u32 = 0;
    let mut i: usize = 0;
    while i < code.len()
        invariant
            i <= code@.len(),
            code@.len() > 0,
            forall|j: int| 0 <= j < i ==> is_digit(#[trigger] code@[j]),
            v as int == decimal_value(code@.subrange(0, i as int)),
            v <= 255,
        decreases code.len() - i,
    {
        let b = code[i];
        if b < 48 || b > 57 {
            return None;
        }
        assert(code@.subrange(0, i + 1).drop_last() =~= code@.subrange(0, i as int));
        let next = v * 10 + (b - 48) as u32;
        if next > 255 {
            proof {
                assert(decimal_value(code@.subrange(0, i + 1)) > 255);
                if forall|j: int| 0 <= j < code@.len() ==> is_digit(#[trigger] code@[j]) {
                    lemma_value_grows(code@, i + 1);
                }
            }
            return None;
        }
        v = next;
        i += 1;
    }
    assert(code@.subrange(0, i as int) =~= code@);
    Some(v as u8)
}

fn head_bytes() -> (r: Vec<u8>)
    ensures
        r@ == sentinel_head(),
{
    let mut v: Vec<u8> = Vec::new();
    v.push(32);
    v.push(91);
    v.push(91);
    v.push(32);
    v.push(69);
    v.push(78);
    v.push(68);
    v.push(45);
    v.push(79);
    v.push(70);
    v.push(45);
    v.push(84);
    v.push(65);
    v.push(83);
    v.push(75);
    v.push(32);
    assert(v@ =~= sentinel_head());
    v
}

/// Whether `t` occurs in `s` at `at`.
fn bytes_at(s: &Vec<u8>, at: usize, t: &Vec<u8>) -> (r: bool)
    requires
        at + t@.len() <= s@.len(),
    ensures
        r == (s@.subrange(at as int, at + t@.len()) == t@),
{
    let mut i: usize = 0;
    while i < t.len()
        invariant
            i <= t@.len(),
            at + t@.len() <= s@.len(),
            forall|j: int| 0 <= j < i ==> s@[at + j] == t@[j],
        decreases t.len() - i,
    {
        let sl = s.len();
        assert(at + i < sl);
        if s[at + i] != t[i] {
            assert(s@.subrange(at as int, at + t@.len())[i as int] != t@[i as int]);
            return false;
        }
        i += 1;
    }
    assert(s@.subrange(at as int, at + t@.len()) =~= t@);
    true
}

fn bytes_range(s: &Vec<u8>, a: usize, b: usize) -> (r: Vec<u8>)
    requires
        a <= b <= s@.len(),
    ensures
        r@ == s@.subrange(a as int, b as int),
{
    let mut out: Vec<u8> = Vec::new();
    let mut i: usize = a;
    while i < b
        invariant
            a <= i <= b <= s@.len(),
            out@ == s@.subrange(a as int, i as int),
        decreases b - i,
    {
        out.push(s[i]);
        i += 1;
        assert(s@.subrange(a as int, i as int) =~= s@.subrange(a as int, i - 1).push(s@[i - 1]));
    }
    out
}

/// Finds the sentinel of `id` at the end of `line`, as `line_sentinel` describes.
pub fn match_line_sentinel(line: &Vec<u8>, id: &Vec<u8>) -> (r: Option<(usize, Vec<u8>)>)
    ensures
        r matches Some((s, c)) ==> line_sentinel(line@, id@) == Some((s as int, c@)),
        r is None ==> line_sentinel(line@, id@) is None,
{
    let n = line.len();
    if n < 4 {
        return None;
    }
    let ghost l = line@;
    if !(line[n - 4] == 32 && line[n - 3] == 93 && line[n - 2] == 93 && line[n - 1] == 32) {
        assert(l.subrange(n - 4, n as int) != sentinel_tail()) by {
            if l.subrange(n - 4, n as int) == sentinel_tail() {
                assert(l.subrange(n - 4, n as int)[0] == l[n - 4]);
                assert(l.subrange(n - 4, n as int)[1] == l[n - 3]);
                assert(l.subrange(n - 4, n as int)[2] == l[n - 2]);
                assert(l.subrange(n - 4, n as int)[3] == l[n - 1]);
            }
        }
        return None;
    }
    assert(l.subrange(n - 4, n as int) =~= sentinel_tail());
    let body = n - 4;
    let mut k: usize = body;
    while k > 0 && line[k - 1] != 32
        invariant
            k <= body,
            body == n - 4,
            n == l.len(),
            l == line@,
            last_space_before(l, body as int) == last_space_before(l, k as int),
        decreases k,
    {
        k -= 1;
    }
    proof {
        lemma_last_space(l, body as int);
    }
    let ghost last = last_space_before(l, body as int);
    assert(last == k - 1);
    let ghost code = l.subrange(k as int, body as int);
    let code_len = body - k;
    if code_len == 0 {
        return None;
    }
    if k == 0 {
        assert(sentinel(id@, code).len() > n);
        return None;
    }
    if id.len() > k - 1 || k - 1 - id.len() < 16 {
        assert(sentinel(id@, code).len() > n);
        return None;
    }
    let start = k - 1 - id.len() - 16;
    let ghost sent = sentinel(id@, code);
    assert(sent.len() == n - start);
    let head = head_bytes();
    let head_ok = bytes_at(line, start, &head);
    let id_ok = bytes_at(line, start + 16, id);
    proof {
        let w = l.subrange(start as int, n as int);
        assert(l[k - 1] == 32u8);
        if head_ok && id_ok {
            assert forall|i: int| 0 <= i < sent.len() implies w[i] == sent[i] by {
                if i < 16 {
                    assert(l.subrange(start as int, start + 16)[i] == sentinel_head()[i]);
                } else if i < 16 + id@.len() {
                    assert(l.subrange(start + 16, start + 16 + id@.len())[i - 16] == id@[i - 16]);
                } else if i == 16 + id@.len() {
                } else if i < 17 + id@.len() + code.len() {
                } else {
                    assert(l.subrange(n - 4, n as int)[i - (n - start - 4)] == sentinel_tail()[i - (n - start - 4)]);
                }
            }
            assert(w =~= sent);
        } else {
            if w == sent {
                if !head_ok {
                    assert(l.subrange(start as int, start + 16) =~= sentinel_head()) by {
                        assert forall|i: int| 0 <= i < 16 implies l.subrange(start as int, start + 16)[i] == sentinel_head()[i] by {
                            assert(w[i] == sent[i]);
                        }
                    }
                } else {
                    assert(l.subrange(start + 16, start + 16 + id@.len()) =~= id@) by {
                        assert forall|i: int| 0 <= i < id@.len() implies l.subrange(start + 16, start + 16 + id@.len())[i] == id@[i] by {
                            assert(w[16 + i] == sent[16 + i]);
                        }
                    }
                }
            }
        }
    }
    if head_ok && id_ok {
        Some((start, bytes_range(line, k, body)))
    } else {
        None
    }
}

/// The text that `b` decodes to, each invalid sequence replaced by U+FFFD.
pub uninterp spec fn utf8_lossy(b: Seq<u8>) -> Seq<char>;

/// Relies on `String::from_utf8_lossy`: valid UTF-8 decodes to exactly its
/// characters.
#[verifier::external_body]
fn text_of(b: &Vec<u8>) -> (r: String)
    ensures
        r@ == utf8_lossy(b@),
        valid_utf8(b@) ==> r@ == decode_utf8(b@),
{
    String::from_utf8_lossy(b.as_slice()).into_owned()
}

/// Relies on `uuid::Uuid::new_v4` and its hyphenated form: a random id of 36
/// lowercase hexadecimal digits and hyphens. (It panics only where the system
/// offers no random bytes.)
#[verifier::external_body]
fn fresh_invocation_id() -> (r: String)
    ensures
        r@.len() == 36,
        forall|i: int|
            0 <= i < 36 ==> #[trigger] r@[i] == '-' || ('0' <= r@[i] && r@[i] <= '9') || ('a' <= r@[i] && r@[i] <= 'f'),
{
    uuid::Uuid::new_v4().hyphenated().to_string()
}

/// What a finished remote command left: its output with the sentinel taken off,
/// its error output, and its exit status.
#[derive(Clone, Debug)]
pub struct ExecChannelCompleteInfo {
    pub stdout: String,
    pub stderr: String,
    pub exit_code: u8,
}

/// The sentinel was found but its status field is not an exit status.
#[derive(Clone, Debug)]
pub enum ExecProtocolError {
    UnreadableExitStatus { field: Vec<u8> },
}

/// The sentinel text that the remote shell prints after the command: the id and
/// the shell's last exit status.
pub open spec fn tag_text(id: Seq<char>) -> Seq<char> {
    " [[ END-OF-TASK "@ + id + " $? ]] "@
}

/// The command line that runs `line` in a shell and then prints the sentinel of `id`.
pub open spec fn wrapped_command(line: Seq<char>, id: Seq<char>) -> Seq<char> {
    "sh -c '"@ + line + "'; echo \""@ + tag_text(id) + "\""@
}

/// The sentinel text of invocation `id`.
pub fn tag(id: &str) -> (r: String)
    ensures
        r@ == tag_text(id@),
{
    let mut r = String::from_str(" [[ END-OF-TASK ");
    r.append(id);
    r.append(" $? ]] ");
    r
}

/// `line` wrapped so that its completion can be seen in the output.
pub fn wrap_command(line: &str, id: &str) -> (r: String)
    ensures
        r@ == wrapped_command(line@, id@),
{
    let t = tag(id);
    let mut r = String::from_str("sh -c '");
    r.append(line);
    r.append("'; echo \"");
    r.append(t.as_str());
    r.append("\"");
    r
}

/// One run of a remote command: its id, the command line sent, and what its
/// output streams have delivered so far.
pub struct ExecInvocation {
    pub id: String,
    pub id_bytes: Vec<u8>,
    pub command: String,
    pub stdout: Vec<u8>,
    pub stderr: Vec<u8>,
    pub line_start: usize,
    pub found: Option<(usize, Vec<u8>)>,
}

impl ExecInvocation {
    /// The scanner state this invocation holds.
    pub open spec fn scan_view(&self) -> ScanView {
        ScanView {
            out: self.stdout@,
            line_start: self.line_start as int,
            found: match self.found {
                Some((s, c)) => Some((s as int, c@)),
                None => None,
            },
        }
    }

    pub open spec fn wf(&self) -> bool {
        &&& self.line_start <= self.stdout@.len()
        &&& self.found matches Some((s, _)) ==> s <= self.stdout@.len()
        &&& self.id_bytes@ == encode_utf8(self.id@)
    }

    /// Whether the sentinel has been seen: the command has finished.
    pub open spec fn is_done(&self) -> bool {
        self.found is Some
    }

    /// A new invocation of `line` under `id`, before any output.
    pub fn new(id: &str, line: &str) -> (r: ExecInvocation)
        ensures
            r.wf(),
            r.id@ == id@,
            r.command@ == wrapped_command(line@, id@),
            r.scan_view() == scan_start(),
            r.stderr@ == Seq::<u8>::empty(),
    {
        let bytes = id.as_bytes();
        let mut id_bytes: Vec<u8> = Vec::new();
        let mut i: usize = 0;
        while i < bytes.len()
            invariant
                i <= bytes@.len(),
                id_bytes@ == bytes@.subrange(0, i as int),
            decreases bytes.len() - i,
        {
            id_bytes.push(bytes[i]);
            i += 1;
            assert(bytes@.subrange(0, i as int) =~= bytes@.subrange(0, i - 1).push(bytes@[i - 1]));
        }
        assert(bytes@.subrange(0, i as int) =~= bytes@);
        let r = ExecInvocation {
            id: id.to_owned(),
            id_bytes,
            command: wrap_command(line, id),
            stdout: Vec::new(),
            stderr: Vec::new(),
            line_start: 0,
            found: None,
        };
        assert(r.scan_view() == scan_start());
        r
    }

    /// A new invocation of `line` under a fresh random id.
    pub fn start(line: &str) -> (r: ExecInvocation)
        ensures
            r.wf(),
            r.id@.len() == 36,
            r.command@ == wrapped_command(line@, r.id@),
            r.scan_view() == scan_start(),
    {
        let id = fresh_invocation_id();
        ExecInvocation::new(id.as_str(), line)
    }

    /// Takes in what one poll read from standard output and standard error. The
    /// output is scanned byte by byte; once the sentinel is found nothing more is
    /// taken in.
    pub fn feed(&mut self, out_chunk: &Vec<u8>, err_chunk: &Vec<u8>)
        requires
            old(self).wf(),
        ensures
            final(self).wf(),
            final(self).id == old(self).id,
            final(self).id_bytes == old(self).id_bytes,
            final(self).command == old(self).command,
            final(self).scan_view() == scan_all(old(self).id_bytes@, old(self).scan_view(), out_chunk@),
            final(self).stderr@ == if old(self).is_done() { old(self).stderr@ } else { old(self).stderr@ + err_chunk@ },
    {
        let ghost id = self.id_bytes@;
        let ghost st0 = self.scan_view();
        if self.found.is_none() {
            let mut j: usize = 0;
            while j < err_chunk.len()
                invariant
                    j <= err_chunk@.len(),
                    self.stderr@ == old(self).stderr@ + err_chunk@.subrange(0, j as int),
                    self.id == old(self).id,
                    self.id_bytes == old(self).id_bytes,
                    self.command == old(self).command,
                    self.stdout == old(self).stdout,
                    self.line_start == old(self).line_start,
                    self.found == old(self).found,
                decreases err_chunk.len() - j,
            {
                self.stderr.push(err_chunk[j]);
                j += 1;
                assert(err_chunk@.subrange(0, j as int) =~= err_chunk@.subrange(0, j - 1).push(err_chunk@[j - 1]));
            }
            assert(err_chunk@.subrange(0, j as int) =~= err_chunk@);
        }
        let ghost err_after = self.stderr@;
        let mut i: usize = 0;
        while i < out_chunk.len()
            invariant
                i <= out_chunk@.len(),
                self.wf(),
                id == self.id_bytes@,
                self.id == old(self).id,
                self.id_bytes == old(self).id_bytes,
                self.command == old(self).command,
                self.stderr@ == err_after,
                self.scan_view() == scan_all(id, st0, out_chunk@.subrange(0, i as int)),
            decreases out_chunk.len() - i,
        {
            let b = out_chunk[i];
            let ghost before = self.scan_view();
            if self.found.is_none() {
                if b == 10 {
                    let line = bytes_range(&self.stdout, self.line_start, self.stdout.len());
                    let m = match_line_sentinel(&line, &self.id_bytes);
                    self.stdout.push(b);
                    let len = self.stdout.len();
                    match m {
                        Some((s, code)) => {
                            self.found = Some((self.line_start + s, code));
                        },
                        None => {},
                    }
                    self.line_start = len;
                } else {
                    self.stdout.push(b);
                }
            }
            assert(out_chunk@.subrange(0, i + 1).drop_last() =~= out_chunk@.subrange(0, i as int));
            assert(self.scan_view() == scan_step(id, before, b));
            i += 1;
        }
        assert(out_chunk@.subrange(0, i as int) =~= out_chunk@);
    }

    /// What the command left, once it has finished: its output up to the sentinel,
    /// its error output and its exit status; or the protocol error of a status
    /// field that is no exit status. `None` while it runs.
    pub fn result(&self) -> (r: Option<Result<ExecChannelCompleteInfo, ExecProtocolError>>)
        requires
            self.wf(),
        ensures
            self.scan_view().found is None ==> r is None,
            self.scan_view().found matches Some((s, code)) ==> match exit_status(code) {
                Some(v) => r matches Some(Ok(info)) && info.exit_code == v
                    && info.stdout@ == utf8_lossy(self.stdout@.subrange(0, s))
                    && info.stderr@ == utf8_lossy(self.stderr@),
                None => r matches Some(Err(ExecProtocolError::UnreadableExitStatus { field })) && field@ == code,
            },
    {
        match &self.found {
            None => None,
            Some((s, code)) => {
                match parse_exit_status(code) {
                    Some(v) => {
                        let out = bytes_range(&self.stdout, 0, *s);
                        Some(Ok(ExecChannelCompleteInfo { stdout: text_of(&out), stderr: text_of(&self.stderr), exit_code: v }))
                    },
                    None => Some(Err(ExecProtocolError::UnreadableExitStatus { field: code.clone() })),
                }
            },
        }
    }
}

} // verus!
