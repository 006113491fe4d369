//! Entries of a transfer: files and directories of the local tree, each with its
//! path relative to the local root and its local and remote locations.

use vstd::prelude::*;
use crate::path::{path_join, path_strip, is_relative, join_path, strip_base, lemma_strip_join};
use crate::text::{chars_of, string_of, split_lines, text_lines, view_all};
use crate::ignore_rules::{IgnoreRuleSet, RuleMatch, is_included, gitignore_verdict, rules_ok, pattern_lines, without_dot_slash};

verus! {

/// The kind of a transferred entry.
#[derive(Clone, Copy, Debug, PartialEq, Eq, Structural)]
pub enum EntryType {
    File,
    Dir,
}

/// One file or directory of the transfer.
#[derive(Clone, Debug)]
pub struct Entry {
    pub kind: EntryType,
    pub local_source: String,
    pub remote_dest: String,
    pub path_name: String,
    pub local_origin: String,
    pub remote_origin: String,
}

/// The mathematical value of an `Entry`.
pub struct EntryView {
    pub kind: EntryType,
    pub local_source: Seq<char>,
    pub remote_dest: Seq<char>,
    pub path_name: Seq<char>,
    pub local_origin: Seq<char>,
    pub remote_origin: Seq<char>,
}

impl View for Entry {
    type V = EntryView;

    open spec fn view(&self) -> EntryView {
        EntryView {
            kind: self.kind,
            local_source: self.local_source@,
            remote_dest: self.remote_dest@,
            path_name: self.path_name@,
            local_origin: self.local_origin@,
            remote_origin: self.remote_origin@,
        }
    }
}

/// The entry of `kind` at `path_name` under the two roots.
pub open spec fn entry_at(kind: EntryType, local_origin: Seq<char>, remote_origin: Seq<char>, path_name: Seq<char>) -> EntryView {
    EntryView {
        kind,
        local_source: path_join(local_origin, path_name),
        remote_dest: path_join(remote_origin, path_name),
        path_name,
        local_origin,
        remote_origin,
    }
}

impl EntryView {
    /// A path names a well-formed entry with a relative path exactly when it is the
    /// relative path or one of the two locations.
    pub proof fn lemma_names_direct(self, p: Seq<char>)
        requires
            self.wf(),
            is_relative(self.path_name),
        ensures
            self.names(p) <==> (self.path_name == p || self.local_source == p || self.remote_dest == p),
    {
        lemma_strip_join(self.local_source, self.local_origin, self.path_name);
        lemma_strip_join(self.remote_dest, self.remote_origin, self.path_name);
        if is_relative(p) {
            lemma_strip_join(path_join(self.local_origin, p), self.local_origin, p);
            lemma_strip_join(path_join(self.remote_origin, p), self.remote_origin, p);
        }
    }

    /// Both locations are the relative path joined onto their roots.
    pub open spec fn wf(self) -> bool {
        &&& self.local_source == path_join(self.local_origin, self.path_name)
        &&& self.remote_dest == path_join(self.remote_origin, self.path_name)
    }

    /// Whether `p` names this entry: as its relative path, as either location, or
    /// as a path that joined onto either root gives that location.
    pub open spec fn names(self, p: Seq<char>) -> bool {
        ||| self.path_name == p
        ||| self.local_source == p
        ||| self.remote_dest == p
        ||| self.local_source == path_join(self.local_origin, p)
        ||| self.remote_dest == path_join(self.remote_origin, p)
    }
}

pub open spec fn entries_view(v: Seq<Entry>) -> Seq<EntryView> {
    v.map_values(|e: Entry| e@)
}

impl Entry {
    /// The entry of `kind` at `path_name` under the two roots.
    pub fn new(kind: EntryType, local_origin: &str, remote_origin: &str, path_name: &str) -> (r: Entry)
        ensures
            r@ == entry_at(kind, local_origin@, remote_origin@, path_name@),
            r@.wf(),
    {
        Entry {
            kind,
            local_source: join_path(local_origin, path_name),
            remote_dest: join_path(remote_origin, path_name),
            path_name: path_name.to_owned(),
            local_origin: local_origin.to_owned(),
            remote_origin: remote_origin.to_owned(),
        }
    }

    /// A copy of this entry.
    pub fn duplicate(&self) -> (r: Entry)
        ensures
            r@ == self@,
    {
        Entry {
            kind: self.kind,
            local_source: self.local_source.clone(),
            remote_dest: self.remote_dest.clone(),
            path_name: self.path_name.clone(),
            local_origin: self.local_origin.clone(),
            remote_origin: self.remote_origin.clone(),
        }
    }

    /// How the entry is shown: `path (local -> remote)`.
    pub fn display_text(&self) -> (r: String)
        ensures
            r@ == self.path_name@ + " ("@ + self.local_source@ + " -> "@ + self.remote_dest@ + ")"@,
    {
        let mut r = self.path_name.clone();
        r.append(" (");
        r.append(self.local_source.as_str());
        r.append(" -> ");
        r.append(self.remote_dest.as_str());
        r.append(")");
        r
    }

    /// Whether `path` names this entry, as `EntryView::names` describes.
    pub fn is_same(&self, path: &str) -> (r: bool)
        ensures
            r == self@.names(path@),
    {
        let p = path.to_owned();
        self.path_name == p || self.local_source == p || self.remote_dest == p || self.local_source == join_path(
            self.local_origin.as_str(),
            path,
        ) || self.remote_dest == join_path(self.remote_origin.as_str(), path)
    }
}

/// What the directory walk reports of a path's type.
#[derive(Clone, Copy, Debug, PartialEq, Eq, Structural)]
pub enum WalkedKind {
    File,
    Dir,
    Symlink,
    /// A type that could not be determined, or is neither file, directory nor link.
    Other,
    /// A path that the walk could not read.
    Unreadable,
}

/// One path reported by a top-down walk of the local tree.
#[derive(Clone, Debug)]
pub struct WalkedPath {
    pub path: String,
    pub kind: WalkedKind,
}

/// Why a walk could not be turned into entries.
#[derive(Clone, Debug)]
pub enum EnumerationError {
    /// An ignore line is not a valid pattern.
    InvalidIgnoreRule,
    /// A walked path does not lie under the local root.
    OutsideRoot { path: String },
    /// A walked path's type could not be determined.
    UnknownFileType { path: String },
    /// A walked path could not be read.
    Unreadable { path: String },
}

/// `p` lies strictly below the directory `dir`.
pub open spec fn strictly_under(p: Seq<char>, dir: Seq<char>) -> bool {
    path_strip(p, dir) matches Some(r) && r.len() > 0
}

/// Whether `p` lies strictly below the directory `dir`.
pub fn is_strictly_under(p: &str, dir: &str) -> (r: bool)
    ensures
        r == strictly_under(p@, dir@),
{
    match strip_base(p, dir) {
        Some(rest) => !rest.as_str().is_empty(),
        None => false,
    }
}

/// A walked path whose subtree is not entered: a link, or a directory that the
/// rules (patterns `lines` resolved against `mroot`) drop.
pub open spec fn is_cut(mroot: Seq<char>, lines: Seq<Seq<char>>, w: WalkedPath) -> bool {
    ||| w.kind == WalkedKind::Symlink
    ||| w.kind == WalkedKind::Dir && !is_included(gitignore_verdict(mroot, lines, w.path@, true))
}

/// The `i`-th walked path lies below an earlier path that was cut.
pub open spec fn is_pruned(mroot: Seq<char>, lines: Seq<Seq<char>>, ws: Seq<WalkedPath>, i: int) -> bool {
    exists|j: int| 0 <= j < i && #[trigger] is_cut(mroot, lines, ws[j]) && strictly_under(ws[i].path@, ws[j].path@)
}

/// The `i`-th walked path becomes an entry.
pub open spec fn is_kept(mroot: Seq<char>, lines: Seq<Seq<char>>, ws: Seq<WalkedPath>, i: int) -> bool {
    &&& !is_pruned(mroot, lines, ws, i)
    &&& (ws[i].kind == WalkedKind::File || ws[i].kind == WalkedKind::Dir)
    &&& is_included(gitignore_verdict(mroot, lines, ws[i].path@, ws[i].kind == WalkedKind::Dir))
}

/// The `i`-th walked path makes the walk unusable: it lies outside `root`, or it
/// could not be read or its type is unknown, and no cut hides it.
pub open spec fn is_fault(root: Seq<char>, mroot: Seq<char>, lines: Seq<Seq<char>>, ws: Seq<WalkedPath>, i: int) -> bool {
    ||| path_strip(ws[i].path@, root) is None
    ||| !is_pruned(mroot, lines, ws, i) && (ws[i].kind == WalkedKind::Other || ws[i].kind == WalkedKind::Unreadable)
}

pub open spec fn entry_kind(k: WalkedKind) -> EntryType {
    if k == WalkedKind::Dir {
        EntryType::Dir
    } else {
        EntryType::File
    }
}

/// The entries that the first `n` walked paths give, in walk order.
pub open spec fn kept_entries(
    root: Seq<char>,
    remote_root: Seq<char>,
    mroot: Seq<char>,
    lines: Seq<Seq<char>>,
    ws: Seq<WalkedPath>,
    n: int,
) -> Seq<EntryView>
    decreases n,
{
    if n <= 0 {
        Seq::empty()
    } else {
        let before = kept_entries(root, remote_root, mroot, lines, ws, n - 1);
        if is_kept(mroot, lines, ws, n - 1) {
            before.push(
                entry_at(entry_kind(ws[n - 1].kind), root, remote_root, path_strip(ws[n - 1].path@, root)->Some_0),
            )
        } else {
            before
        }
    }
}

/// The error that the `i`-th walked path gives when it is a fault.
pub open spec fn fault_matches(root: Seq<char>, ws: Seq<WalkedPath>, i: int, e: EnumerationError) -> bool {
    if path_strip(ws[i].path@, root) is None {
        e matches EnumerationError::OutsideRoot { path } && path@ == ws[i].path@
    } else if ws[i].kind == WalkedKind::Unreadable {
        e matches EnumerationError::Unreadable { path } && path@ == ws[i].path@
    } else {
        e matches EnumerationError::UnknownFileType { path } && path@ == ws[i].path@
    }
}

/// What enumerating the walk `ws` of `root` gives under the rules.
pub open spec fn enumeration_ok(
    root: Seq<char>,
    remote_root: Seq<char>,
    mroot: Seq<char>,
    lines: Seq<Seq<char>>,
    ws: Seq<WalkedPath>,
    r: Result<Vec<Entry>, EnumerationError>,
) -> bool {
    &&& r is Ok <==> (forall|i: int| 0 <= i < ws.len() ==> !is_fault(root, mroot, lines, ws, i))
    &&& r matches Ok(v) ==> entries_view(v@) == kept_entries(root, remote_root, mroot, lines, ws, ws.len() as int)
    &&& r matches Ok(v) ==> forall|k: int| 0 <= k < v@.len() ==> (#[trigger] v@[k])@.wf()
    &&& r matches Err(e) ==> exists|i: int|
        0 <= i < ws.len() && is_fault(root, mroot, lines, ws, i) && fault_matches(root, ws, i, e)
            && forall|j: int| 0 <= j < i ==> !is_fault(root, mroot, lines, ws, j)
}

/// The entries of a top-down walk of `local_root` under `rules`, in walk order.
/// A path the rules drop is left out, a dropped directory together with
/// everything below it, and so is a symbolic link; each entry's locations are
/// its path relative to `local_root` joined onto the two roots.
pub fn enumerate_walk(
    rules: &IgnoreRuleSet,
    local_root: &str,
    remote_root: &str,
    walked: &Vec<WalkedPath>,
) -> (r: Result<Vec<Entry>, EnumerationError>)
    ensures
        enumeration_ok(local_root@, remote_root@, rules.root(), rules.lines(), walked@, r),
{
    let ghost root = local_root@;
    let ghost mroot = rules.root();
    let ghost lines = rules.lines();
    let ghost ws = walked@;
    let mut out: Vec<Entry> = Vec::new();
    let mut cuts: Vec<usize> = Vec::new();
    let mut i: usize = 0;
    while i < walked.len()
        invariant
            i <= walked.len(),
            ws == walked@,
            root == local_root@,
            mroot == rules.root(),
            lines == rules.lines(),
            forall|j: int| 0 <= j < i ==> !is_fault(root, mroot, lines, ws, j),
            entries_view(out@) == kept_entries(root, remote_root@, mroot, lines, ws, i as int),
            forall|k: int| 0 <= k < out@.len() ==> (#[trigger] out@[k])@.wf(),
            forall|k: int| 0 <= k < cuts@.len() ==> cuts@[k] < i && is_cut(mroot, lines, ws[cuts@[k] as int]),
            forall|j: int| 0 <= j < i && #[trigger] is_cut(mroot, lines, ws[j]) ==> cuts@.contains(j as usize),
        decreases walked.len() - i,
    {
        let w = &walked[i];
        let rel = match strip_base(w.path.as_str(), local_root) {
            Some(v) => v,
            None => {
                let e = EnumerationError::OutsideRoot { path: w.path.clone() };
                assert(is_fault(root, mroot, lines, ws, i as int) && fault_matches(root, ws, i as int, e));
                return Err(e);
            },
        };
        let mut pruned = false;
        let mut k: usize = 0;
        while k < cuts.len()
            invariant
                k <= cuts.len(),
                i < walked.len(),
                ws == walked@,
                forall|m: int| 0 <= m < cuts@.len() ==> cuts@[m] < i,
                pruned == exists|m: int| 0 <= m < k && strictly_under(ws[i as int].path@, #[trigger] ws[cuts@[m] as int].path@),
            decreases cuts.len() - k,
        {
            if is_strictly_under(walked[i].path.as_str(), walked[cuts[k]].path.as_str()) {
                pruned = true;
            }
            k += 1;
        }
        proof {
            if pruned {
                let m = choose|m: int| 0 <= m < k && strictly_under(ws[i as int].path@, #[trigger] ws[cuts@[m] as int].path@);
                assert(is_cut(mroot, lines, ws[cuts@[m] as int]));
            }
            if is_pruned(mroot, lines, ws, i as int) {
                let j = choose|j: int| 0 <= j < i && #[trigger] is_cut(mroot, lines, ws[j]) && strictly_under(ws[i as int].path@, ws[j].path@);
                assert(cuts@.contains(j as usize));
                let m = choose|m: int| 0 <= m < cuts@.len() && cuts@[m] == j as usize;
                assert(strictly_under(ws[i as int].path@, ws[cuts@[m] as int].path@));
            }
            assert(pruned == is_pruned(mroot, lines, ws, i as int));
        }
        let kind = w.kind;
        let is_dir = kind == WalkedKind::Dir;
        let mut included = false;
        let mut cut = false;
        match kind {
            WalkedKind::Symlink => {
                cut = true;
            },
            WalkedKind::Other => {
                if !pruned {
                    let e = EnumerationError::UnknownFileType { path: w.path.clone() };
                    assert(is_fault(root, mroot, lines, ws, i as int) && fault_matches(root, ws, i as int, e));
                    return Err(e);
                }
            },
            WalkedKind::Unreadable => {
                if !pruned {
                    let e = EnumerationError::Unreadable { path: w.path.clone() };
                    assert(is_fault(root, mroot, lines, ws, i as int) && fault_matches(root, ws, i as int, e));
                    return Err(e);
                }
            },
            _ => {
                included = rules.includes(w.path.as_str(), is_dir);
                cut = is_dir && !included;
            },
        }
        assert(cut == is_cut(mroot, lines, ws[i as int]));
        let ghost old_cuts = cuts@;
        if cut {
            cuts.push(i);
        }
        assert forall|j: int| 0 <= j < i + 1 && #[trigger] is_cut(mroot, lines, ws[j]) implies cuts@.contains(j as usize) by {
            if j < i {
                let m = choose|m: int| 0 <= m < old_cuts.len() && old_cuts[m] == j as usize;
                assert(cuts@[m] == j as usize);
            } else {
                assert(cuts@[cuts@.len() - 1] == j as usize);
            }
        }
        if !pruned && included {
            let e = Entry::new(entry_kind_of(kind), local_root, remote_root, rel.as_str());
            let ghost before = entries_view(out@);
            out.push(e);
            assert(entries_view(out@) =~= before.push(e@));
        }
        assert(kept_entries(root, remote_root@, mroot, lines, ws, i + 1) == if is_kept(mroot, lines, ws, i as int) {
            kept_entries(root, remote_root@, mroot, lines, ws, i as int).push(
                entry_at(entry_kind(ws[i as int].kind), root, remote_root@, path_strip(ws[i as int].path@, root)->Some_0),
            )
        } else {
            kept_entries(root, remote_root@, mroot, lines, ws, i as int)
        });
        i += 1;
    }
    Ok(out)
}

/// What is to be transferred: a local tree, where it goes, and the ignore rules
/// that apply to it.
pub struct FileTransferList {
    pub local_source_origin: String,
    pub remote_dest_origin: String,
    pub ignore_statement: String,
    pub ignore_origin: String,
}

impl FileTransferList {
    pub fn new(local_source_origin: &str, remote_dest_origin: &str, ignore_statement: &str, ignore_origin: &str) -> (r: FileTransferList)
        ensures
            r.local_source_origin@ == local_source_origin@,
            r.remote_dest_origin@ == remote_dest_origin@,
            r.ignore_statement@ == ignore_statement@,
            r.ignore_origin@ == ignore_origin@,
    {
        FileTransferList {
            local_source_origin: local_source_origin.to_owned(),
            remote_dest_origin: remote_dest_origin.to_owned(),
            ignore_statement: ignore_statement.to_owned(),
            ignore_origin: ignore_origin.to_owned(),
        }
    }

    pub fn local_source_origin(&self) -> (r: &str)
        ensures
            r@ == self.local_source_origin@,
    {
        self.local_source_origin.as_str()
    }

    pub fn remote_dest_origin(&self) -> (r: &str)
        ensures
            r@ == self.remote_dest_origin@,
    {
        self.remote_dest_origin.as_str()
    }

    /// The ignore rules: each line of the ignore text, resolved against the local
    /// root. It fails exactly when the lines make no rule set.
    pub fn ignore_rules(&self) -> (r: Result<IgnoreRuleSet, EnumerationError>)
        ensures
            r is Ok <==> rules_ok(text_lines(self.ignore_statement@)),
            r matches Ok(s) ==> s.root() == without_dot_slash(self.local_source_origin@) && s.lines() == pattern_lines(
                text_lines(self.ignore_statement@),
            ),
            r matches Err(e) ==> e matches EnumerationError::InvalidIgnoreRule,
    {
        let chars = chars_of(self.ignore_statement.as_str());
        let pieces = split_lines(&chars);
        let mut lines: Vec<String> = Vec::new();
        let mut i: usize = 0;
        while i < pieces.len()
            invariant
                i <= pieces.len(),
                lines@.map_values(|l: String| l@) == view_all(pieces@).subrange(0, i as int),
            decreases pieces.len() - i,
        {
            let ghost before = lines@.map_values(|l: String| l@);
            let line = string_of(&pieces[i]);
            lines.push(line);
            assert(lines@.map_values(|l: String| l@) =~= before.push(pieces@[i as int]@));
            assert(view_all(pieces@).subrange(0, i + 1) =~= view_all(pieces@).subrange(0, i as int).push(pieces@[i as int]@));
            i += 1;
        }
        assert(view_all(pieces@).subrange(0, i as int) =~= view_all(pieces@));
        assert(lines@.map_values(|l: String| l@) == text_lines(self.ignore_statement@));
        match IgnoreRuleSet::build(self.local_source_origin.as_str(), self.ignore_origin.as_str(), &lines) {
            Ok(s) => Ok(s),
            Err(_) => Err(EnumerationError::InvalidIgnoreRule),
        }
    }

    /// The entries of `walked`, a top-down walk of the local root, under this
    /// list's ignore rules: an error when the ignore text makes no rule set, else
    /// `enumerate_walk` with the rules of `ignore_rules`.
    pub fn traverse_dir(&self, walked: &Vec<WalkedPath>) -> (r: Result<Vec<Entry>, EnumerationError>)
        ensures
            (r matches Err(EnumerationError::InvalidIgnoreRule)) <==> !rules_ok(text_lines(self.ignore_statement@)),
            rules_ok(text_lines(self.ignore_statement@)) ==> enumeration_ok(
                self.local_source_origin@,
                self.remote_dest_origin@,
                without_dot_slash(self.local_source_origin@),
                pattern_lines(text_lines(self.ignore_statement@)),
                walked@,
                r,
            ),
    {
        let rules = match self.ignore_rules() {
            Ok(s) => s,
            Err(e) => {
                return Err(e);
            },
        };
        enumerate_walk(&rules, self.local_source_origin.as_str(), self.remote_dest_origin.as_str(), walked)
    }
}

/// How the rules decide a walked path that no ignored directory above it hides:
/// a path that no rule matches, or that a re-include rule decides, becomes an
/// entry; a path that an ignore rule decides does not, and when it is a directory
/// nothing below it does either.
pub proof fn lemma_walk_inclusion(mroot: Seq<char>, lines: Seq<Seq<char>>, ws: Seq<WalkedPath>, i: int)
    requires
        0 <= i < ws.len(),
        !is_pruned(mroot, lines, ws, i),
        ws[i].kind == WalkedKind::File || ws[i].kind == WalkedKind::Dir,
    ensures
        gitignore_verdict(mroot, lines, ws[i].path@, ws[i].kind == WalkedKind::Dir) != RuleMatch::Ignored
            ==> is_kept(mroot, lines, ws, i),
        gitignore_verdict(mroot, lines, ws[i].path@, ws[i].kind == WalkedKind::Dir) == RuleMatch::Ignored
            ==> !is_kept(mroot, lines, ws, i),
        gitignore_verdict(mroot, lines, ws[i].path@, ws[i].kind == WalkedKind::Dir) == RuleMatch::Ignored
            && ws[i].kind == WalkedKind::Dir ==> forall|j: int| i < j < ws.len() && strictly_under(ws[j].path@, ws[i].path@)
                ==> #[trigger] is_pruned(mroot, lines, ws, j) && !is_kept(mroot, lines, ws, j),
{
    if gitignore_verdict(mroot, lines, ws[i].path@, ws[i].kind == WalkedKind::Dir) == RuleMatch::Ignored
        && ws[i].kind == WalkedKind::Dir {
        assert(is_cut(mroot, lines, ws[i]));
    }
}

/// The entry made from a path `p` under `local_root`: its local location is `p`
/// itself, its remote location is `remote_root` joined with `p`'s path relative to
/// `local_root`, and taking `local_root` off its local location gives back that
/// relative path, however many segments it has.
pub proof fn lemma_entry_locations(kind: EntryType, p: Seq<char>, local_root: Seq<char>, remote_root: Seq<char>)
    requires
        path_strip(p, local_root) is Some,
    ensures
        ({
            let rel = path_strip(p, local_root)->Some_0;
            let e = entry_at(kind, local_root, remote_root, rel);
            &&& e.wf()
            &&& is_relative(rel)
            &&& e.local_source == p
            &&& e.remote_dest == path_join(remote_root, rel)
            &&& path_strip(e.local_source, local_root) == Some(e.path_name)
        }),
{
    lemma_strip_join(p, local_root, path_strip(p, local_root)->Some_0);
}

/// Every entry that a walk without faults gives comes from one walked path that
/// is kept: its local location is that path and its remote location is the
/// remote root joined with the path relative to the local root.
pub proof fn lemma_kept_entry_origin(
    root: Seq<char>,
    remote_root: Seq<char>,
    mroot: Seq<char>,
    lines: Seq<Seq<char>>,
    ws: Seq<WalkedPath>,
    n: int,
    k: int,
)
    requires
        0 <= n <= ws.len(),
        forall|i: int| 0 <= i < n ==> !is_fault(root, mroot, lines, ws, i),
        0 <= k < kept_entries(root, remote_root, mroot, lines, ws, n).len(),
    ensures
        exists|j: int|
            0 <= j < n && is_kept(mroot, lines, ws, j) && {
                let e = #[trigger] kept_entries(root, remote_root, mroot, lines, ws, n)[k];
                &&& e.local_source == ws[j].path@
                &&& e.remote_dest == path_join(remote_root, path_strip(ws[j].path@, root)->Some_0)
                &&& e.path_name == path_strip(ws[j].path@, root)->Some_0
                &&& e.kind == entry_kind(ws[j].kind)
            },
    decreases n,
{
    let before = kept_entries(root, remote_root, mroot, lines, ws, n - 1);
    if k < before.len() {
        lemma_kept_entry_origin(root, remote_root, mroot, lines, ws, n - 1, k);
        let j = choose|j: int|
            0 <= j < n - 1 && is_kept(mroot, lines, ws, j) && {
                let e = #[trigger] kept_entries(root, remote_root, mroot, lines, ws, n - 1)[k];
                &&& e.local_source == ws[j].path@
                &&& e.remote_dest == path_join(remote_root, path_strip(ws[j].path@, root)->Some_0)
                &&& e.path_name == path_strip(ws[j].path@, root)->Some_0
                &&& e.kind == entry_kind(ws[j].kind)
            };
        assert(kept_entries(root, remote_root, mroot, lines, ws, n)[k] == before[k]);
    } else {
        let j = n - 1;
        assert(!is_fault(root, mroot, lines, ws, j));
        lemma_entry_locations(entry_kind(ws[j].kind), ws[j].path@, root, remote_root);
        assert(is_kept(mroot, lines, ws, j));
    }
}

pub fn entry_kind_of(k: WalkedKind) -> (r: EntryType)
    ensures
        r == entry_kind(k),
{
    match k {
        WalkedKind::Dir => EntryType::Dir,
        _ => EntryType::File,
    }
}

} // verus!
