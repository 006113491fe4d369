//! Change detection: digest maps of the local and remote trees, and the set of
//! relative paths whose content differs between them.

use vstd::prelude::*;
use crate::path::{path_join, is_relative, strip_base, lemma_strip_join, join_path, is_relative_path};
use crate::text::{same_text, chars_of, string_of, chars_from, split_lines, text_lines, view_all, trim, trim_chars};
use crate::fs::{Entry, EntryType, EntryView, entries_view, strictly_under, is_strictly_under};

verus! {

/// The characters of each string, in order.
pub open spec fn texts(v: Seq<String>) -> Seq<Seq<char>> {
    v.map_values(|s: String| s@)
}

/// A map from path to content digest, held as two lists of equal length with no
/// key twice.
pub struct DigestMap {
    pub keys: Vec<String>,
    pub digests: Vec<String>,
}

impl View for DigestMap {
    type V = Map<Seq<char>, Seq<char>>;

    open spec fn view(&self) -> Map<Seq<char>, Seq<char>> {
        Map::new(
            |k: Seq<char>| exists|i: int| 0 <= i < self.keys@.len() && self.keys@[i]@ == k,
            |k: Seq<char>| self.digests@[choose|i: int| 0 <= i < self.keys@.len() && self.keys@[i]@ == k]@,
        )
    }
}

impl DigestMap {
    pub open spec fn wf(&self) -> bool {
        &&& self.keys@.len() == self.digests@.len()
        &&& forall|i: int, j: int| 0 <= i < j < self.keys@.len() ==> self.keys@[i]@ != self.keys@[j]@
    }

    /// The key at `i` maps to the digest at `i`.
    pub proof fn lemma_entry(&self, i: int)
        requires
            self.wf(),
            0 <= i < self.keys@.len(),
        ensures
            self@.contains_key(self.keys@[i]@),
            self@[self.keys@[i]@] == self.digests@[i]@,
    {
        let k = self.keys@[i]@;
        assert(exists|j: int| 0 <= j < self.keys@.len() && self.keys@[j]@ == k);
        let j = choose|j: int| 0 <= j < self.keys@.len() && self.keys@[j]@ == k;
        if j != i {
            if j < i {
                assert(self.keys@[j]@ != self.keys@[i]@);
            } else {
                assert(self.keys@[i]@ != self.keys@[j]@);
            }
        }
    }

    /// The empty map.
    pub fn new() -> (r: DigestMap)
        ensures
            r.wf(),
            r@ == Map::<Seq<char>, Seq<char>>::empty(),
    {
        let r = DigestMap { keys: Vec::new(), digests: Vec::new() };
        assert(r@ =~= Map::<Seq<char>, Seq<char>>::empty());
        r
    }

    pub fn len(&self) -> (r: usize)
        requires
            self.wf(),
        ensures
            r == self.keys@.len(),
            r == self@.len(),
    {
        proof {
            self.lemma_dom_len();
        }
        self.keys.len()
    }

    proof fn lemma_dom_len(&self)
        requires
            self.wf(),
        ensures
            self@.dom().finite(),
            self@.dom() == texts(self.keys@).to_set(),
            self@.len() == self.keys@.len(),
    {
        let ks = texts(self.keys@);
        assert(self@.dom() =~= ks.to_set()) by {
            assert forall|k: Seq<char>| self@.dom().contains(k) implies ks.to_set().contains(k) by {
                let i = choose|i: int| 0 <= i < self.keys@.len() && self.keys@[i]@ == k;
                assert(ks[i] == k);
            }
            assert forall|k: Seq<char>| ks.to_set().contains(k) implies self@.dom().contains(k) by {
                let i = choose|i: int| 0 <= i < ks.len() && ks[i] == k;
                assert(self.keys@[i]@ == k);
            }
        }
        assert(ks.no_duplicates()) by {
            assert forall|i: int, j: int| 0 <= i < ks.len() && 0 <= j < ks.len() && i != j implies ks[i] != ks[j] by {
                if i < j {
                    assert(self.keys@[i]@ != self.keys@[j]@);
                } else {
                    assert(self.keys@[j]@ != self.keys@[i]@);
                }
            }
        }
        ks.unique_seq_to_set();
    }

    /// Where `k` is held, if it is.
    pub fn find(&self, k: &str) -> (r: Option<usize>)
        requires
            self.wf(),
        ensures
            r matches Some(i) ==> i < self.keys@.len() && self.keys@[i as int]@ == k@,
            r is None <==> !self@.contains_key(k@),
    {
        let key = k.to_owned();
        let mut i: usize = 0;
        while i < self.keys.len()
            invariant
                i <= self.keys@.len(),
                self.wf(),
                key@ == k@,
                forall|j: int| 0 <= j < i ==> self.keys@[j]@ != k@,
            decreases self.keys.len() - i,
        {
            if self.keys[i] == key {
                proof {
                    self.lemma_entry(i as int);
                }
                return Some(i);
            }
            i += 1;
        }
        None
    }

    /// Maps `k` to `v`, replacing what `k` mapped to before.
    pub fn insert(&mut self, k: String, v: String)
        requires
            old(self).wf(),
        ensures
            final(self).wf(),
            final(self)@ == old(self)@.insert(k@, v@),
    {
        let ghost before = self@;
        match self.find(k.as_str()) {
            Some(i) => {
                self.digests.set(i, v);
                proof {
                    assert forall|key: Seq<char>| #[trigger] self@.contains_key(key) <==> before.insert(k@, v@).contains_key(key) by {
                        if self@.contains_key(key) {
                            let j = choose|j: int| 0 <= j < self.keys@.len() && self.keys@[j]@ == key;
                            assert(old(self).keys@[j]@ == key);
                        }
                        if before.contains_key(key) {
                            let j = choose|j: int| 0 <= j < old(self).keys@.len() && old(self).keys@[j]@ == key;
                            assert(self.keys@[j]@ == key);
                        }
                    }
                    assert forall|key: Seq<char>| #[trigger] self@.contains_key(key) implies self@[key] == before.insert(k@, v@)[key] by {
                        let j = choose|j: int| 0 <= j < self.keys@.len() && self.keys@[j]@ == key;
                        self.lemma_entry(j);
                        old(self).lemma_entry(j);
                    }
                    assert(self@ =~= before.insert(k@, v@));
                }
            },
            None => {
                let ghost kv = k@;
                self.keys.push(k);
                self.digests.push(v);
                proof {
                    let n = self.keys@.len() - 1;
                    assert(self.keys@[n]@ == kv);
                    assert forall|i: int, j: int| 0 <= i < j < self.keys@.len() implies self.keys@[i]@ != self.keys@[j]@ by {
                        if j == n {
                            assert(old(self).keys@[i] == self.keys@[i]);
                            if self.keys@[i]@ == kv {
                                assert(before.contains_key(kv));
                            }
                        } else {
                            assert(old(self).keys@[i] == self.keys@[i]);
                            assert(old(self).keys@[j] == self.keys@[j]);
                        }
                    }
                    assert forall|key: Seq<char>| #[trigger] self@.contains_key(key) <==> before.insert(kv, v@).contains_key(key) by {
                        if self@.contains_key(key) {
                            let j = choose|j: int| 0 <= j < self.keys@.len() && self.keys@[j]@ == key;
                            if j < n {
                                assert(old(self).keys@[j]@ == key);
                            }
                        }
                        if before.contains_key(key) {
                            let j = choose|j: int| 0 <= j < old(self).keys@.len() && old(self).keys@[j]@ == key;
                            assert(self.keys@[j]@ == key);
                        }
                    }
                    assert forall|key: Seq<char>| #[trigger] self@.contains_key(key) implies self@[key] == before.insert(kv, v@)[key] by {
                        let j = choose|j: int| 0 <= j < self.keys@.len() && self.keys@[j]@ == key;
                        self.lemma_entry(j);
                        if j < n {
                            old(self).lemma_entry(j);
                        }
                    }
                    assert(self@ =~= before.insert(kv, v@));
                }
            },
        }
    }
}

/// The paths that changed between two digest maps keyed by relative path: those
/// only one side holds, and those both hold with different digests.
pub open spec fn changed_set(l: Map<Seq<char>, Seq<char>>, r: Map<Seq<char>, Seq<char>>) -> Set<Seq<char>> {
    Set::new(
        |k: Seq<char>|
            {
                ||| l.contains_key(k) && !r.contains_key(k)
                ||| r.contains_key(k) && !l.contains_key(k)
                ||| l.contains_key(k) && r.contains_key(k) && l[k] != r[k]
            },
    )
}

pub open spec fn only_in(a: Map<Seq<char>, Seq<char>>, b: Map<Seq<char>, Seq<char>>, k: Seq<char>) -> bool {
    a.contains_key(k) && !b.contains_key(k)
}

pub open spec fn differs_in(a: Map<Seq<char>, Seq<char>>, b: Map<Seq<char>, Seq<char>>, k: Seq<char>) -> bool {
    a.contains_key(k) && b.contains_key(k) && a[k] != b[k]
}

proof fn lemma_push_texts(out: Seq<String>, s: String)
    ensures
        texts(out.push(s)) == texts(out).push(s@),
        forall|k: Seq<char>| #[trigger] texts(out.push(s)).contains(k) <==> texts(out).contains(k) || k == s@,
{
    assert(texts(out.push(s)) =~= texts(out).push(s@));
    assert forall|k: Seq<char>| #[trigger] texts(out.push(s)).contains(k) <==> texts(out).contains(k) || k == s@ by {
        let t = texts(out);
        if texts(out.push(s)).contains(k) {
            let i = choose|i: int| 0 <= i < t.len() + 1 && t.push(s@)[i] == k;
            if i < t.len() {
                assert(t[i] == k);
            }
        }
        if t.contains(k) {
            let i = choose|i: int| 0 <= i < t.len() && t[i] == k;
            assert(t.push(s@)[i] == k);
        }
        if k == s@ {
            assert(t.push(s@)[t.len() as int] == k);
        }
    }
}

proof fn lemma_push_distinct(out: Seq<String>, s: String)
    requires
        texts(out).no_duplicates(),
        !texts(out).contains(s@),
    ensures
        texts(out.push(s)).no_duplicates(),
        texts(out.push(s)) == texts(out).push(s@),
        forall|k: Seq<char>| #[trigger] texts(out.push(s)).contains(k) <==> texts(out).contains(k) || k == s@,
{
    lemma_push_texts(out, s);
    let t = texts(out.push(s));
    assert forall|a: int, b: int| 0 <= a < t.len() && 0 <= b < t.len() && a != b implies t[a] != t[b] by {
        if a == t.len() - 1 {
            assert(texts(out).contains(t[b]));
        } else if b == t.len() - 1 {
            assert(texts(out).contains(t[a]));
        } else {
            assert(texts(out)[a] == t[a] && texts(out)[b] == t[b]);
        }
    }
}

/// The relative paths that changed between `local` and `remote`, each once: first
/// those only `local` holds, then those only `remote` holds, then those whose
/// digests differ.
pub fn changed_keys(local: &DigestMap, remote: &DigestMap) -> (r: Vec<String>)
    requires
        local.wf(),
        remote.wf(),
    ensures
        texts(r@).to_set() == changed_set(local@, remote@),
        texts(r@).no_duplicates(),
{
    let mut out: Vec<String> = Vec::new();
    let ghost l = local@;
    let ghost rm = remote@;
    let mut i: usize = 0;
    while i < local.keys.len()
        invariant
            i <= local.keys@.len(),
            local.wf(),
            remote.wf(),
            l == local@,
            rm == remote@,
            forall|k: Seq<char>| #[trigger] texts(out@).contains(k) <==> exists|j: int|
                0 <= j < i && local.keys@[j]@ == k && !rm.contains_key(k),
            texts(out@).no_duplicates(),
        decreases local.keys.len() - i,
    {
        proof {
            local.lemma_entry(i as int);
        }
        if remote.find(local.keys[i].as_str()).is_none() {
            let ghost before = out@;
            let key = local.keys[i].clone();
            proof {
                assert(!texts(before).contains(key@)) by {
                    if texts(before).contains(key@) {
                        let j = choose|j: int| 0 <= j < i && local.keys@[j]@ == key@ && !rm.contains_key(key@);
                        assert(local.keys@[j]@ != local.keys@[i as int]@);
                    }
                }
                lemma_push_distinct(before, key);
            }
            out.push(key);
            assert forall|k: Seq<char>| #[trigger] texts(out@).contains(k) <==> exists|j: int|
                0 <= j < i + 1 && local.keys@[j]@ == k && !rm.contains_key(k) by {
                if k == key@ {
                    assert(local.keys@[i as int]@ == k);
                }
            }
        } else {
            assert forall|k: Seq<char>| #[trigger] texts(out@).contains(k) <==> exists|j: int|
                0 <= j < i + 1 && local.keys@[j]@ == k && !rm.contains_key(k) by {
                if exists|j: int| 0 <= j < i + 1 && local.keys@[j]@ == k && !rm.contains_key(k) {
                    let j = choose|j: int| 0 <= j < i + 1 && local.keys@[j]@ == k && !rm.contains_key(k);
                    assert(j < i);
                }
            }
        }
        i += 1;
    }
    assert forall|k: Seq<char>| #[trigger] texts(out@).contains(k) <==> only_in(l, rm, k) by {
        if only_in(l, rm, k) {
            let j = choose|j: int| 0 <= j < local.keys@.len() && local.keys@[j]@ == k;
        }
    }
    let mut j: usize = 0;
    while j < remote.keys.len()
        invariant
            j <= remote.keys@.len(),
            local.wf(),
            remote.wf(),
            l == local@,
            rm == remote@,
            forall|k: Seq<char>| #[trigger] texts(out@).contains(k) <==> only_in(l, rm, k) || exists|m: int|
                0 <= m < j && remote.keys@[m]@ == k && !l.contains_key(k),
            texts(out@).no_duplicates(),
        decreases remote.keys.len() - j,
    {
        proof {
            remote.lemma_entry(j as int);
        }
        if local.find(remote.keys[j].as_str()).is_none() {
            let ghost before = out@;
            let key = remote.keys[j].clone();
            proof {
                assert(!texts(before).contains(key@)) by {
                    if texts(before).contains(key@) && !only_in(l, rm, key@) {
                        let m = choose|m: int| 0 <= m < j && remote.keys@[m]@ == key@ && !l.contains_key(key@);
                        assert(remote.keys@[m]@ != remote.keys@[j as int]@);
                    }
                }
                lemma_push_distinct(before, key);
            }
            out.push(key);
            assert forall|k: Seq<char>| #[trigger] texts(out@).contains(k) <==> only_in(l, rm, k) || exists|m: int|
                0 <= m < j + 1 && remote.keys@[m]@ == k && !l.contains_key(k) by {
                if k == key@ {
                    assert(remote.keys@[j as int]@ == k);
                }
            }
        } else {
            assert forall|k: Seq<char>| #[trigger] texts(out@).contains(k) <==> only_in(l, rm, k) || exists|m: int|
                0 <= m < j + 1 && remote.keys@[m]@ == k && !l.contains_key(k) by {
                if exists|m: int| 0 <= m < j + 1 && remote.keys@[m]@ == k && !l.contains_key(k) {
                    let m = choose|m: int| 0 <= m < j + 1 && remote.keys@[m]@ == k && !l.contains_key(k);
                    assert(m < j);
                }
            }
        }
        j += 1;
    }
    assert forall|k: Seq<char>| #[trigger] texts(out@).contains(k) <==> only_in(l, rm, k) || only_in(rm, l, k) by {
        if only_in(rm, l, k) {
            let m = choose|m: int| 0 <= m < remote.keys@.len() && remote.keys@[m]@ == k;
        }
    }
    let mut i: usize = 0;
    while i < local.keys.len()
        invariant
            i <= local.keys@.len(),
            local.wf(),
            remote.wf(),
            l == local@,
            rm == remote@,
            forall|k: Seq<char>| #[trigger] texts(out@).contains(k) <==> only_in(l, rm, k) || only_in(rm, l, k) || exists|m: int|
                0 <= m < i && local.keys@[m]@ == k && differs_in(l, rm, k),
            texts(out@).no_duplicates(),
        decreases local.keys.len() - i,
    {
        proof {
            local.lemma_entry(i as int);
        }
        let mut differs = false;
        match remote.find(local.keys[i].as_str()) {
            Some(jr) => {
                proof {
                    remote.lemma_entry(jr as int);
                }
                differs = !same_text(local.digests[i].as_str(), remote.digests[jr].as_str());
            },
            None => {},
        }
        assert(differs == differs_in(l, rm, local.keys@[i as int]@));
        if differs {
            let ghost before = out@;
            let key = local.keys[i].clone();
            proof {
                assert(!texts(before).contains(key@)) by {
                    if texts(before).contains(key@) && !only_in(l, rm, key@) && !only_in(rm, l, key@) {
                        let m = choose|m: int| 0 <= m < i && local.keys@[m]@ == key@ && differs_in(l, rm, key@);
                        assert(local.keys@[m]@ != local.keys@[i as int]@);
                    }
                }
                lemma_push_distinct(before, key);
            }
            out.push(key);
            assert forall|k: Seq<char>| #[trigger] texts(out@).contains(k) <==> only_in(l, rm, k) || only_in(rm, l, k) || exists|m: int|
                0 <= m < i + 1 && local.keys@[m]@ == k && differs_in(l, rm, k) by {
                if k == key@ {
                    assert(local.keys@[i as int]@ == k);
                }
            }
        } else {
            assert forall|k: Seq<char>| #[trigger] texts(out@).contains(k) <==> only_in(l, rm, k) || only_in(rm, l, k) || exists|m: int|
                0 <= m < i + 1 && local.keys@[m]@ == k && differs_in(l, rm, k) by {
                if exists|m: int| 0 <= m < i + 1 && local.keys@[m]@ == k && differs_in(l, rm, k) {
                    let m = choose|m: int| 0 <= m < i + 1 && local.keys@[m]@ == k && differs_in(l, rm, k);
                    assert(m < i);
                }
            }
        }
        i += 1;
    }
    assert forall|k: Seq<char>| #[trigger] texts(out@).contains(k) <==> changed_set(l, rm).contains(k) by {
        if differs_in(l, rm, k) {
            let m = choose|m: int| 0 <= m < local.keys@.len() && local.keys@[m]@ == k;
        }
    }
    assert(texts(out@).to_set() =~= changed_set(l, rm));
    out
}

/// The map `m` keyed by paths relative to `base`: a relative path `k` maps to what
/// `m` maps `base` joined with `k` to; keys outside `base` are left out.
pub open spec fn relative_map(m: Map<Seq<char>, Seq<char>>, base: Seq<char>) -> Map<Seq<char>, Seq<char>> {
    Map::new(
        |k: Seq<char>| is_relative(k) && m.contains_key(path_join(base, k)),
        |k: Seq<char>| m[path_join(base, k)],
    )
}

impl DigestMap {
    /// This map keyed by paths relative to `base`, as `relative_map` describes.
    pub fn relative_to(&self, base: &str) -> (r: DigestMap)
        requires
            self.wf(),
        ensures
            r.wf(),
            r@ == relative_map(self@, base@),
    {
        let mut out = DigestMap::new();
        let ghost m = self@;
        let mut i: usize = 0;
        while i < self.keys.len()
            invariant
                i <= self.keys@.len(),
                self.wf(),
                m == self@,
                out.wf(),
                out@ == Map::new(
                    |k: Seq<char>| is_relative(k) && exists|j: int| 0 <= j < i && self.keys@[j]@ == path_join(base@, k),
                    |k: Seq<char>| m[path_join(base@, k)],
                ),
            decreases self.keys.len() - i,
        {
            proof {
                self.lemma_entry(i as int);
            }
            let ghost before = out@;
            match strip_base(self.keys[i].as_str(), base) {
                Some(k) => {
                    proof {
                        lemma_strip_join(self.keys@[i as int]@, base@, k@);
                    }
                    let ghost kv = k@;
                    out.insert(k, self.digests[i].clone());
                    assert forall|x: Seq<char>| is_relative(x) && self.keys@[i as int]@ == path_join(base@, x) implies x == kv by {
                        lemma_strip_join(self.keys@[i as int]@, base@, x);
                    }
                    assert(out@ =~= Map::new(
                        |k: Seq<char>| is_relative(k) && exists|j: int| 0 <= j < i + 1 && self.keys@[j]@ == path_join(base@, k),
                        |k: Seq<char>| m[path_join(base@, k)],
                    ));
                },
                None => {
                    assert forall|k: Seq<char>| is_relative(k) && self.keys@[i as int]@ == path_join(base@, k) implies false by {
                        lemma_strip_join(self.keys@[i as int]@, base@, k);
                    }
                    assert(out@ =~= Map::new(
                        |k: Seq<char>| is_relative(k) && exists|j: int| 0 <= j < i + 1 && self.keys@[j]@ == path_join(base@, k),
                        |k: Seq<char>| m[path_join(base@, k)],
                    ));
                },
            }
            i += 1;
        }
        assert forall|k: Seq<char>| is_relative(k) && m.contains_key(path_join(base@, k)) implies exists|j: int|
            0 <= j < self.keys@.len() && self.keys@[j]@ == path_join(base@, k) by {
        }
        assert(out@ =~= relative_map(m, base@));
        out
    }
}

/// The paths, relative to their roots, whose content differs between the local
/// digests (keyed under `local_base`) and the remote ones (keyed under
/// `remote_base`), each once.
pub fn check_differences(local: &DigestMap, remote: &DigestMap, local_base: &str, remote_base: &str) -> (r: Vec<String>)
    requires
        local.wf(),
        remote.wf(),
    ensures
        texts(r@).to_set() == changed_set(relative_map(local@, local_base@), relative_map(remote@, remote_base@)),
        texts(r@).no_duplicates(),
{
    let l = local.relative_to(local_base);
    let rm = remote.relative_to(remote_base);
    changed_keys(&l, &rm)
}

/// The SHA-256 digest of `data`, as lowercase hexadecimal.
pub uninterp spec fn sha256_hex(data: Seq<u8>) -> Seq<char>;

/// Relies on `sha256::digest`: the hex encoding of the SHA-256 digest of the
/// bytes, 64 characters.
#[verifier::external_body]
fn content_digest(data: &Vec<u8>) -> (r: String)
    ensures
        r@ == sha256_hex(data@),
        r@.len() == 64,
{
    sha256::digest(data)
}

/// The digests of the files among `files`, keyed by local location: the `i`-th
/// file maps to `digests[i]`, a later file replacing an earlier one at the same
/// location.
pub open spec fn file_digests(files: Seq<EntryView>, digests: Seq<Seq<char>>, n: int) -> Map<Seq<char>, Seq<char>>
    decreases n,
{
    if n <= 0 {
        Map::empty()
    } else {
        let before = file_digests(files, digests, n - 1);
        if files[n - 1].kind == EntryType::File {
            before.insert(files[n - 1].local_source, digests[n - 1])
        } else {
            before
        }
    }
}

/// The digest map of `files` whose contents have the digests `digests`, one per
/// entry; directories are left out.
pub fn digest_map_of(files: &Vec<Entry>, digests: &Vec<String>) -> (r: DigestMap)
    requires
        files@.len() == digests@.len(),
    ensures
        r.wf(),
        r@ == file_digests(entries_view(files@), texts(digests@), files@.len() as int),
{
    let mut out = DigestMap::new();
    let mut i: usize = 0;
    while i < files.len()
        invariant
            i <= files@.len(),
            files@.len() == digests@.len(),
            out.wf(),
            out@ == file_digests(entries_view(files@), texts(digests@), i as int),
        decreases files.len() - i,
    {
        if files[i].kind == EntryType::File {
            out.insert(files[i].local_source.clone(), digests[i].clone());
        }
        i += 1;
    }
    out
}

/// The SHA-256 digest of each of `contents`, in order.
pub fn content_digests(contents: &Vec<Vec<u8>>) -> (r: Vec<String>)
    ensures
        r@.len() == contents@.len(),
        texts(r@) == contents@.map_values(|c: Vec<u8>| sha256_hex(c@)),
{
    let mut digests: Vec<String> = Vec::new();
    let mut i: usize = 0;
    while i < contents.len()
        invariant
            i <= contents@.len(),
            texts(digests@) == contents@.subrange(0, i as int).map_values(|c: Vec<u8>| sha256_hex(c@)),
        decreases contents.len() - i,
    {
        let d = content_digest(&contents[i]);
        let ghost before = digests@;
        digests.push(d);
        assert(texts(digests@) =~= texts(before).push(d@));
        assert(contents@.subrange(0, i + 1).map_values(|c: Vec<u8>| sha256_hex(c@)) =~= contents@.subrange(
            0,
            i as int,
        ).map_values(|c: Vec<u8>| sha256_hex(c@)).push(sha256_hex(contents@[i as int]@)));
        i += 1;
    }
    assert(contents@.subrange(0, i as int) =~= contents@);
    assert(texts(digests@).len() == digests@.len());
    digests
}

/// The shell command that prints the SHA-256 digest of each file entry's remote
/// location, one `digest  path` line per file: `sha256sum` followed by each
/// location in single quotes.
pub open spec fn hash_command(files: Seq<EntryView>, n: int) -> Seq<char>
    decreases n,
{
    if n <= 0 {
        seq!['s', 'h', 'a', '2', '5', '6', 's', 'u', 'm']
    } else if files[n - 1].kind == EntryType::File {
        hash_command(files, n - 1) + seq![' ', '\''] + files[n - 1].remote_dest + seq!['\'']
    } else {
        hash_command(files, n - 1)
    }
}

/// Whether any of `files` is a file.
pub open spec fn has_file(files: Seq<EntryView>) -> bool {
    exists|i: int| 0 <= i < files.len() && files[i].kind == EntryType::File
}

/// The command that hashes the remote copies of the file entries of `files`.
pub fn remote_digest_command(files: &Vec<Entry>) -> (r: String)
    ensures
        r@ == hash_command(entries_view(files@), files@.len() as int),
{
    let mut out: Vec<char> = Vec::new();
    out.push('s');
    out.push('h');
    out.push('a');
    out.push('2');
    out.push('5');
    out.push('6');
    out.push('s');
    out.push('u');
    out.push('m');
    let mut i: usize = 0;
    while i < files.len()
        invariant
            i <= files@.len(),
            out@ == hash_command(entries_view(files@), i as int),
        decreases files.len() - i,
    {
        if files[i].kind == EntryType::File {
            let p = chars_of(files[i].remote_dest.as_str());
            out.push(' ');
            out.push('\'');
            let mut t: usize = 0;
            let ghost head = out@;
            while t < p.len()
                invariant
                    t <= p@.len(),
                    out@ == head + p@.subrange(0, t as int),
                decreases p.len() - t,
            {
                out.push(p[t]);
                t += 1;
                assert(p@.subrange(0, t as int) =~= p@.subrange(0, t - 1).push(p@[t - 1]));
            }
            out.push('\'');
            assert(p@.subrange(0, t as int) =~= p@);
            assert(out@ =~= hash_command(entries_view(files@), i as int) + seq![' ', '\''] + p@ + seq!['\'']);
        }
        i += 1;
    }
    string_of(&out)
}

/// The `i`-th entry is a file that one of the paths `changed` names.
pub open spec fn is_changed_file(es: Seq<EntryView>, changed: Set<Seq<char>>, i: int) -> bool {
    es[i].kind == EntryType::File && exists|c: Seq<char>| changed.contains(c) && #[trigger] es[i].names(c)
}

/// The `i`-th entry is a directory above some changed file: it must exist before
/// that file can be placed.
pub open spec fn is_needed_dir(es: Seq<EntryView>, changed: Set<Seq<char>>, i: int) -> bool {
    es[i].kind == EntryType::Dir && exists|f: int|
        0 <= f < es.len() && #[trigger] is_changed_file(es, changed, f) && strictly_under(es[f].path_name, es[i].path_name)
}

/// The entries among the first `n` of `es` that a transfer of the changes needs,
/// in their order.
pub open spec fn needed_entries(es: Seq<EntryView>, changed: Set<Seq<char>>, n: int) -> Seq<EntryView>
    decreases n,
{
    if n <= 0 {
        Seq::empty()
    } else if is_changed_file(es, changed, n - 1) || is_needed_dir(es, changed, n - 1) {
        needed_entries(es, changed, n - 1).push(es[n - 1])
    } else {
        needed_entries(es, changed, n - 1)
    }
}

/// The entries of `entries` that a transfer of the paths `changed` needs, in their
/// order: each file one of the paths names, and each directory above such a file.
pub fn select_changed(entries: &Vec<Entry>, changed: &Vec<String>) -> (r: Vec<Entry>)
    ensures
        entries_view(r@) == needed_entries(entries_view(entries@), texts(changed@).to_set(), entries@.len() as int),
{
    let ghost es = entries_view(entries@);
    let ghost cs = texts(changed@);
    let ghost cset = cs.to_set();
    let n = entries.len();
    let mut is_file_changed: Vec<bool> = Vec::new();
    let mut i: usize = 0;
    while i < n
        invariant
            i <= n,
            n == entries@.len(),
            es == entries_view(entries@),
            cs == texts(changed@),
            is_file_changed@.len() == i,
            cset == cs.to_set(),
            forall|j: int| 0 <= j < i ==> is_file_changed@[j] == is_changed_file(es, cset, j),
        decreases n - i,
    {
        let mut hit = false;
        if entries[i].kind == EntryType::File {
            let e = &entries[i];
            let direct = is_relative_path(e.path_name.as_str())
                && e.local_source == join_path(e.local_origin.as_str(), e.path_name.as_str())
                && e.remote_dest == join_path(e.remote_origin.as_str(), e.path_name.as_str());
            assert(e@ == es[i as int]);
            let mut c: usize = 0;
            while c < changed.len()
                invariant
                    c <= changed@.len(),
                    i < n,
                    n == entries@.len(),
                    es == entries_view(entries@),
                    cs == texts(changed@),
                    hit == exists|d: int| 0 <= d < c && es[i as int].names(#[trigger] cs[d]),
                    e@ == es[i as int],
                    direct ==> es[i as int].wf() && is_relative(es[i as int].path_name),
                decreases changed.len() - c,
            {
                assert(es[i as int] == entries@[i as int]@ && cs[c as int] == changed@[c as int]@);
                if direct {
                    proof {
                        es[i as int].lemma_names_direct(cs[c as int]);
                    }
                    if e.path_name == changed[c] || e.local_source == changed[c] || e.remote_dest == changed[c] {
                        hit = true;
                    }
                } else if e.is_same(changed[c].as_str()) {
                    hit = true;
                }
                c += 1;
            }
            proof {
                if hit {
                    let d = choose|d: int| 0 <= d < changed@.len() && es[i as int].names(#[trigger] cs[d]);
                    assert(cset.contains(cs[d]));
                }
                if is_changed_file(es, cset, i as int) {
                    let p = choose|p: Seq<char>| cset.contains(p) && #[trigger] es[i as int].names(p);
                    let d = choose|d: int| 0 <= d < cs.len() && cs[d] == p;
                    assert(es[i as int].names(cs[d]));
                }
            }
        }
        is_file_changed.push(hit);
        i += 1;
    }
    let mut out: Vec<Entry> = Vec::new();
    let mut i: usize = 0;
    while i < n
        invariant
            i <= n,
            n == entries@.len(),
            es == entries_view(entries@),
            cs == texts(changed@),
            is_file_changed@.len() == n,
            cset == cs.to_set(),
            forall|j: int| 0 <= j < n ==> is_file_changed@[j] == is_changed_file(es, cset, j),
            entries_view(out@) == needed_entries(es, cset, i as int),
        decreases n - i,
    {
        let mut keep = is_file_changed[i];
        if entries[i].kind == EntryType::Dir {
            let mut f: usize = 0;
            while f < n
                invariant
                    f <= n,
                    i < n,
                    n == entries@.len(),
                    es == entries_view(entries@),
                    is_file_changed@.len() == n,
                    forall|j: int| 0 <= j < n ==> is_file_changed@[j] == is_changed_file(es, cset, j),
                    keep == exists|g: int| 0 <= g < f && #[trigger] is_changed_file(es, cset, g) && strictly_under(es[g].path_name, es[i as int].path_name),
                decreases n - f,
            {
                assert(es[f as int] == entries@[f as int]@ && es[i as int] == entries@[i as int]@);
                if is_file_changed[f] && is_strictly_under(entries[f].path_name.as_str(), entries[i].path_name.as_str()) {
                    keep = true;
                }
                f += 1;
            }
        }
        assert(keep == (is_changed_file(es, cset, i as int) || is_needed_dir(es, cset, i as int)));
        if keep {
            let ghost before = entries_view(out@);
            let e = entries[i].duplicate();
            out.push(e);
            assert(entries_view(out@) =~= before.push(e@));
        }
        i += 1;
    }
    out
}

/// The first index from `i` on that holds a space or a tab.
pub open spec fn separator_from(t: Seq<char>, i: int) -> Option<int>
    decreases t.len() - i,
{
    if i < 0 || i >= t.len() {
        None
    } else if t[i] == ' ' || t[i] == '\t' {
        Some(i)
    } else {
        separator_from(t, i + 1)
    }
}

/// One line of a `sha256sum` listing read as (digest, path): the trimmed line up
/// to its first space or tab, and the trimmed rest. A line with no separator
/// gives nothing.
pub open spec fn listing_line(l: Seq<char>) -> Option<(Seq<char>, Seq<char>)> {
    let t = trim(l);
    match separator_from(t, 0) {
        Some(i) => Some((t.subrange(0, i), trim(t.subrange(i + 1, t.len() as int)))),
        None => None,
    }
}

/// The digests that the first `n` lines of a listing give, keyed by path; a later
/// line for the same path wins.
pub open spec fn listing_map(lines: Seq<Seq<char>>, n: int) -> Map<Seq<char>, Seq<char>>
    decreases n,
{
    if n <= 0 {
        Map::empty()
    } else {
        let before = listing_map(lines, n - 1);
        match listing_line(lines[n - 1]) {
            Some((d, p)) => before.insert(p, d),
            None => before,
        }
    }
}

fn find_separator(t: &Vec<char>) -> (r: Option<usize>)
    ensures
        r matches Some(i) ==> separator_from(t@, 0) == Some(i as int) && i < t@.len(),
        r is None ==> separator_from(t@, 0) is None,
{
    let mut i: usize = 0;
    while i < t.len()
        invariant
            i <= t@.len(),
            separator_from(t@, 0) == separator_from(t@, i as int),
        decreases t.len() - i,
    {
        if t[i] == ' ' || t[i] == '\t' {
            return Some(i);
        }
        i += 1;
    }
    None
}

fn prefix_chars(s: &Vec<char>, end: usize) -> (r: Vec<char>)
    requires
        end <= s@.len(),
    ensures
        r@ == s@.subrange(0, end as int),
{
    let mut out: Vec<char> = Vec::new();
    let mut i: usize = 0;
    while i < end
        invariant
            i <= end <= s@.len(),
            out@ == s@.subrange(0, i as int),
        decreases end - i,
    {
        out.push(s[i]);
        i += 1;
        assert(s@.subrange(0, i as int) =~= s@.subrange(0, i - 1).push(s@[i - 1]));
    }
    out
}

/// The remote digest map read from the output of the hashing command: each line
/// read as `listing_line` describes, a later line for a path replacing an earlier one.
pub fn parse_remote_digests(stdout: &str) -> (r: DigestMap)
    ensures
        r.wf(),
        r@ == listing_map(text_lines(stdout@), text_lines(stdout@).len() as int),
{
    let chars = chars_of(stdout);
    let lines = split_lines(&chars);
    let ghost ls = text_lines(stdout@);
    let mut out = DigestMap::new();
    let mut i: usize = 0;
    while i < lines.len()
        invariant
            i <= lines@.len(),
            view_all(lines@) == ls,
            out.wf(),
            out@ == listing_map(ls, i as int),
        decreases lines.len() - i,
    {
        assert(ls[i as int] == lines@[i as int]@);
        let t = trim_chars(&lines[i]);
        match find_separator(&t) {
            Some(k) => {
                let tl = t.len();
                assert(k < tl);
                let digest = prefix_chars(&t, k);
                let rest = chars_from(&t, k + 1);
                let path = trim_chars(&rest);
                out.insert(string_of(&path), string_of(&digest));
            },
            None => {},
        }
        i += 1;
    }
    out
}

/// The paths, relative to the roots, that changed between local files with digests
/// `digests` (one per entry of `es`) and the remote listing `listing`.
pub open spec fn changed_paths(
    es: Seq<EntryView>,
    digests: Seq<Seq<char>>,
    listing: Seq<char>,
    local_root: Seq<char>,
    remote_root: Seq<char>,
) -> Set<Seq<char>> {
    changed_set(
        relative_map(file_digests(es, digests, es.len() as int), local_root),
        relative_map(listing_map(text_lines(listing), text_lines(listing).len() as int), remote_root),
    )
}

/// The entries of `entries` that a transfer needs, given the digest of each local
/// entry (`digests[i]` for the `i`-th) and the remote hashing command's output:
/// the changed files and the directories above them, in their order. An empty or
/// unreadable listing makes every file count as changed.
pub fn select_by_digests(
    entries: &Vec<Entry>,
    digests: &Vec<String>,
    remote_listing: &str,
    local_root: &str,
    remote_root: &str,
) -> (r: Vec<Entry>)
    requires
        entries@.len() == digests@.len(),
    ensures
        entries_view(r@) == needed_entries(
            entries_view(entries@),
            changed_paths(entries_view(entries@), texts(digests@), remote_listing@, local_root@, remote_root@),
            entries@.len() as int,
        ),
{
    let local = digest_map_of(entries, digests);
    let remote = parse_remote_digests(remote_listing);
    let changed = check_differences(&local, &remote, local_root, remote_root);
    select_changed(entries, &changed)
}

/// The entries of `entries` that a transfer needs, where `contents[i]` holds the
/// bytes of the `i`-th entry's local file (empty for a directory) and
/// `remote_listing` is the output of `remote_digest_command` on the remote host.
pub fn check_file_change(
    entries: &Vec<Entry>,
    contents: &Vec<Vec<u8>>,
    remote_listing: &str,
    local_root: &str,
    remote_root: &str,
) -> (r: Vec<Entry>)
    requires
        entries@.len() == contents@.len(),
    ensures
        entries_view(r@) == needed_entries(
            entries_view(entries@),
            changed_paths(
                entries_view(entries@),
                contents@.map_values(|c: Vec<u8>| sha256_hex(c@)),
                remote_listing@,
                local_root@,
                remote_root@,
            ),
            entries@.len() as int,
        ),
{
    let digests = content_digests(contents);
    select_by_digests(entries, &digests, remote_listing, local_root, remote_root)
}

} // verus!
