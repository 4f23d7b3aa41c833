//! Artifacts: ordered maps from non-empty string keys to entries, where an
//! entry is a string, a byte blob, a JSON-like document or a nested artifact.
//! Keys are unique and iteration order is the sort order of the key strings.

use vstd::prelude::*;
use vstd::string::*;

use crate::error::ErrorKind;
use crate::compare::{Finding, FindingV, Mismatch, bytes_eq, diff_json, fviews,
    spec_diff_artifact, spec_diff_entries, spec_diff_entry, spec_missing_entries};
use crate::json::{Json, JsonV, json_wf, clone_bytes};
use crate::strings::{chars_lt, concat3, lemma_chars_lt_irrefl, lemma_chars_lt_total, lemma_chars_lt_trans,
    str_eq, str_lt};

verus! {

broadcast use vstd::group_vstd_default;

/// A value held in an artifact under a key.
#[derive(Debug)]
pub enum Entry {
    /// A string entry.
    Str(String),
    /// A JSON entry.
    Json(Json),
    /// A raw byte entry.
    Bytes(Vec<u8>),
    /// A nested artifact entry.
    Artifact(Artifact),
}

/// An ordered, uniquely keyed tree of entries produced by one test run.
/// Entries are added with `insert` and its typed convenience wrappers;
/// insertion under a key already present is refused, never overwritten.
#[derive(Debug)]
pub struct Artifact {
    entries: Vec<(String, Entry)>,
}

/// The mathematical model of an `Entry`.
pub ghost enum EntryV {
    /// A string entry.
    Str(Seq<char>),
    /// A JSON entry.
    Json(JsonV),
    /// A raw byte entry.
    Bytes(Seq<u8>),
    /// A nested artifact entry: the model of the child's key-entry sequence.
    Artifact(Seq<(Seq<char>, EntryV)>),
}

/// The models of a sequence of key-entry pairs.
pub open spec fn entries_view(s: Seq<(String, Entry)>) -> Seq<(Seq<char>, EntryV)>
    decreases s,
{
    if s.len() == 0 {
        Seq::empty()
    } else {
        seq![(s[0].0@, s[0].1@)] + entries_view(s.skip(1))
    }
}

impl View for Entry {
    type V = EntryV;

    open spec fn view(&self) -> EntryV
        decreases self,
    {
        match self {
            Entry::Str(s) => EntryV::Str(s@),
            Entry::Json(j) => EntryV::Json(j@),
            Entry::Bytes(b) => EntryV::Bytes(b@),
            Entry::Artifact(a) => EntryV::Artifact(a@),
        }
    }
}

impl View for Artifact {
    type V = Seq<(Seq<char>, EntryV)>;

    closed spec fn view(&self) -> Seq<(Seq<char>, EntryV)>
        decreases self,
    {
        entries_view(self.entries@)
    }
}

/// `entries_view` is the pointwise model of the pairs.
pub proof fn lemma_entries_view(s: Seq<(String, Entry)>)
    ensures
        entries_view(s).len() == s.len(),
        forall|i: int| 0 <= i < s.len() ==> entries_view(s)[i] == (s[i].0@, s[i].1@),
    decreases s.len(),
{
    if s.len() > 0 {
        lemma_entries_view(s.skip(1));
        assert(entries_view(s) == seq![(s[0].0@, s[0].1@)] + entries_view(s.skip(1)));
        assert forall|i: int|
            0 <= i < s.len() implies entries_view(s)[i] == (s[i].0@, s[i].1@) by {
            if i > 0 {
                assert(entries_view(s)[i] == entries_view(s.skip(1))[i - 1]);
                assert(s.skip(1)[i - 1] == s[i]);
            }
        }
    }
}

/// True when the keys of a keyed sequence are in strictly ascending order.
pub open spec fn keys_sorted<T>(m: Seq<(Seq<char>, T)>) -> bool {
    forall|i: int, j: int| 0 <= i < j < m.len() ==> chars_lt(m[i].0, m[j].0)
}

/// Well-formedness of an entry: a JSON entry is a well-formed document and a
/// nested artifact is itself well formed.
pub open spec fn entry_wf(e: EntryV) -> bool
    decreases e,
{
    match e {
        EntryV::Json(j) => json_wf(j),
        EntryV::Artifact(m) => artifact_wf(m),
        _ => true,
    }
}

/// Well-formedness of an artifact: keys strictly sorted (hence unique) and
/// every entry well formed, recursively.
pub open spec fn artifact_wf(m: Seq<(Seq<char>, EntryV)>) -> bool
    decreases m,
{
    keys_sorted(m) && forall|i: int| 0 <= i < m.len() ==> entry_wf(#[trigger] m[i].1)
}

/// The value under a key: the first pair with that key, if any.
pub open spec fn spec_lookup<T>(m: Seq<(Seq<char>, T)>, k: Seq<char>) -> Option<T>
    decreases m.len(),
{
    if m.len() == 0 {
        None
    } else if m[0].0 == k {
        Some(m[0].1)
    } else {
        spec_lookup(m.skip(1), k)
    }
}

/// True when some pair of the sequence has the given key.
pub open spec fn has_key<T>(m: Seq<(Seq<char>, T)>, k: Seq<char>) -> bool {
    spec_lookup(m, k) is Some
}

/// The position where a new pair with key `k` is inserted: the length of the
/// longest prefix whose keys are below `k`.
pub open spec fn insert_pos<T>(m: Seq<(Seq<char>, T)>, k: Seq<char>) -> int
    decreases m.len(),
{
    if m.len() == 0 {
        0
    } else if chars_lt(m[0].0, k) {
        1 + insert_pos(m.skip(1), k)
    } else {
        0
    }
}

/// What `spec_lookup` returning `None` or `Some` says about the keys of the
/// sequence.
pub proof fn lemma_lookup<T>(m: Seq<(Seq<char>, T)>, k: Seq<char>)
    ensures
        spec_lookup(m, k) is None ==> forall|i: int| 0 <= i < m.len() ==> m[i].0 != k,
        spec_lookup(m, k) matches Some(v) ==> exists|i: int|
            0 <= i < m.len() && m[i].0 == k && m[i].1 == v,
    decreases m.len(),
{
    if m.len() > 0 && m[0].0 != k {
        lemma_lookup(m.skip(1), k);
        if spec_lookup(m, k) is None {
            assert forall|i: int| 0 <= i < m.len() implies m[i].0 != k by {
                if i > 0 {
                    assert(m.skip(1)[i - 1] == m[i]);
                }
            }
        } else {
            let v = spec_lookup(m.skip(1), k)->Some_0;
            let i = choose|i: int|
                0 <= i < m.skip(1).len() && m.skip(1)[i].0 == k && m.skip(1)[i].1 == v;
            assert(m[i + 1] == m.skip(1)[i]);
        }
    }
}

/// Under unique keys, the pair at any index with key `k` is what `spec_lookup`
/// finds.
pub proof fn lemma_lookup_at<T>(m: Seq<(Seq<char>, T)>, i: int)
    requires
        crate::json::keys_unique(m),
        0 <= i < m.len(),
    ensures
        spec_lookup(m, m[i].0) == Some(m[i].1),
    decreases i,
{
    if i == 0 {
    } else {
        assert(m[0].0 != m[i].0);
        assert(crate::json::keys_unique(m.skip(1))) by {
            assert forall|p: int, q: int|
                0 <= p < q < m.skip(1).len() implies m.skip(1)[p].0 != m.skip(1)[q].0 by {
                assert(m.skip(1)[p] == m[p + 1]);
                assert(m.skip(1)[q] == m[q + 1]);
            }
        }
        assert(m.skip(1)[i - 1] == m[i]);
        lemma_lookup_at(m.skip(1), i - 1);
    }
}

/// Sorted keys are unique.
pub proof fn lemma_sorted_unique<T>(m: Seq<(Seq<char>, T)>)
    requires
        keys_sorted(m),
    ensures
        crate::json::keys_unique(m),
{
    assert forall|i: int, j: int| 0 <= i < j < m.len() implies m[i].0 != m[j].0 by {
        if m[i].0 == m[j].0 {
            lemma_chars_lt_irrefl(m[i].0);
        }
    }
}

/// `insert_pos` is the first position whose key is not below `k`.
pub proof fn lemma_insert_pos_is_boundary<T>(m: Seq<(Seq<char>, T)>, k: Seq<char>, i: int)
    requires
        0 <= i <= m.len(),
        forall|j: int| 0 <= j < i ==> chars_lt(m[j].0, k),
        i < m.len() ==> !chars_lt(m[i].0, k),
    ensures
        insert_pos(m, k) == i,
    decreases m.len(),
{
    if i == 0 {
    } else {
        assert(chars_lt(m[0].0, k));
        assert forall|j: int| 0 <= j < i - 1 implies chars_lt(m.skip(1)[j].0, k) by {
            assert(m.skip(1)[j] == m[j + 1]);
        }
        if i - 1 < m.skip(1).len() {
            assert(m.skip(1)[i - 1] == m[i]);
        }
        lemma_insert_pos_is_boundary(m.skip(1), k, i - 1);
    }
}

/// The first position in `entries` whose key is not strictly below `name`.
#[verifier::loop_isolation(false)]
fn lower_bound(entries: &Vec<(String, Entry)>, name: &str) -> (i: usize)
    ensures
        i <= entries@.len(),
        forall|j: int| 0 <= j < i ==> chars_lt(entries@[j].0@, name@),
        i < entries@.len() ==> !chars_lt(entries@[i as int].0@, name@),
{
    let n: usize = entries.len();
    let mut i: usize = 0;
    while i < n
        invariant
            i <= n,
            forall|j: int| 0 <= j < i ==> chars_lt(entries@[j].0@, name@),
        decreases n - i,
    {
        if !str_lt(entries[i].0.as_str(), name) {
            return i;
        }
        i = i + 1;
    }
    i
}

/// Looks up an entry of a key-entry list by key.
#[verifier::loop_isolation(false)]
fn lookup_entries<'a>(m: &'a Vec<(String, Entry)>, k: &str) -> (r: Option<&'a Entry>)
    ensures
        match r {
            Some(e) => spec_lookup(entries_view(m@), k@) == Some(e@),
            None => spec_lookup(entries_view(m@), k@) is None,
        },
{
    proof {
        lemma_entries_view(m@);
        assert(entries_view(m@).skip(0) =~= entries_view(m@));
    }
    let n: usize = m.len();
    let mut i: usize = 0;
    while i < n
        invariant
            i <= n,
            spec_lookup(entries_view(m@), k@) == spec_lookup(
                entries_view(m@).skip(i as int),
                k@,
            ),
        decreases n - i,
    {
        proof {
            assert(entries_view(m@).skip(i as int)[0] == entries_view(m@)[i as int]);
            assert(entries_view(m@).skip(i as int).skip(1) =~= entries_view(m@).skip(i + 1));
        }
        if str_eq(m[i].0.as_str(), k) {
            return Some(&m[i].1);
        }
        i = i + 1;
    }
    proof {
        assert(entries_view(m@).skip(n as int) =~= Seq::<(Seq<char>, EntryV)>::empty());
    }
    None
}

impl Entry {
    /// Deep copy; the copy has the same mathematical value.
    pub fn duplicate(&self) -> (r: Entry)
        ensures
            r@ == self@,
        decreases self,
    {
        match self {
            Entry::Str(s) => Entry::Str(s.clone()),
            Entry::Json(j) => Entry::Json(j.duplicate()),
            Entry::Bytes(b) => Entry::Bytes(clone_bytes(b)),
            Entry::Artifact(a) => Entry::Artifact(a.duplicate()),
        }
    }
}

impl Artifact {
    /// Creates an empty artifact.
    pub fn new() -> (a: Artifact)
        ensures
            a@ == Seq::<(Seq<char>, EntryV)>::empty(),
            artifact_wf(a@),
    {
        Artifact { entries: Vec::new() }
    }

    /// Deep copy; the copy has the same mathematical value.
    #[verifier::loop_isolation(false)]
    pub fn duplicate(&self) -> (r: Artifact)
        ensures
            r@ == self@,
        decreases self,
    {
        let mut out: Vec<(String, Entry)> = Vec::new();
        let mut i: usize = 0;
        while i < self.entries.len()
            invariant
                i <= self.entries.len(),
                out@.len() == i,
                forall|j: int|
                    0 <= j < i ==> out@[j].0@ == self.entries@[j].0@ && out@[j].1@
                        == self.entries@[j].1@,
            decreases self.entries.len() - i,
        {
            let key = self.entries[i].0.clone();
            let val = self.entries[i].1.duplicate();
            out.push((key, val));
            i = i + 1;
        }
        proof {
            lemma_entries_view(out@);
            lemma_entries_view(self.entries@);
            assert(entries_view(out@) =~= entries_view(self.entries@));
        }
        Artifact { entries: out }
    }

    /// The number of entries.
    pub fn len(&self) -> (n: usize)
        ensures
            n == self@.len(),
    {
        proof {
            lemma_entries_view(self.entries@);
        }
        self.entries.len()
    }

    /// The key-entry pair at position `i` in key order.
    pub fn entry_at(&self, i: usize) -> (r: &(String, Entry))
        requires
            i < self@.len(),
        ensures
            r.0@ == self@[i as int].0,
            r.1@ == self@[i as int].1,
    {
        proof {
            lemma_entries_view(self.entries@);
        }
        &self.entries[i]
    }

    /// Inserts `entry` under `name`. Fails with a `DuplicateKey` error, and
    /// leaves the artifact unchanged, exactly when the artifact already holds
    /// an entry under `name`; otherwise the entry is added at its sorted
    /// position. An entry is never silently overwritten.
    #[verifier::loop_isolation(false)]
    pub fn insert(&mut self, name: &str, entry: Entry) -> (r: Result<(), ErrorKind>)
        requires
            artifact_wf(old(self)@),
            entry_wf(entry@),
        ensures
            artifact_wf(final(self)@),
            match r {
                Ok(()) => !has_key(old(self)@, name@) && final(self)@ == old(self)@.insert(
                    insert_pos(old(self)@, name@),
                    (name@, entry@),
                ),
                Err(e) => has_key(old(self)@, name@) && final(self)@ == old(self)@ && (
                e matches ErrorKind::DuplicateKey(k) && k@ == name@),
            },
    {
        let ghost mv = self@;
        proof {
            lemma_entries_view(self.entries@);
        }
        let n: usize = self.entries.len();
        let i: usize = lower_bound(&self.entries, name);
        if i < n && str_eq(self.entries[i].0.as_str(), name) {
            proof {
                lemma_sorted_unique(mv);
                lemma_lookup_at(mv, i as int);
            }
            return Err(ErrorKind::DuplicateKey(name.to_owned()));
        }
        proof {
            // `name` occurs nowhere: before `i` the keys are strictly below
            // it, at `i` it differs, and past `i` the keys are strictly above.
            if i < n {
                lemma_chars_lt_total(mv[i as int].0, name@);
            }
            assert forall|j: int| 0 <= j < mv.len() implies mv[j].0 != name@ by {
                if mv[j].0 == name@ {
                    if j < i {
                        lemma_chars_lt_irrefl(name@);
                    } else if j == i {
                    } else {
                        lemma_chars_lt_trans(name@, mv[i as int].0, mv[j].0);
                        lemma_chars_lt_irrefl(name@);
                    }
                }
            }
            lemma_lookup(mv, name@);
            lemma_insert_pos_is_boundary(mv, name@, i as int);
        }
        self.entries.insert(i, (name.to_owned(), entry));
        proof {
            lemma_entries_view(self.entries@);
            assert(entries_view(self.entries@) =~= mv.insert(i as int, (name@, entry@)));
            let nv = self@;
            assert forall|p: int, q: int| 0 <= p < q < nv.len() implies chars_lt(
                nv[p].0,
                nv[q].0,
            ) by {
                if q == i {
                    if p < i {
                        assert(nv[p] == mv[p]);
                    }
                } else if p == i {
                    assert(nv[q] == mv[q - 1]);
                    if i < mv.len() {
                        lemma_chars_lt_total(mv[i as int].0, name@);
                        if i as int <= q - 2 {
                            assert(chars_lt(mv[i as int].0, mv[q - 1].0));
                            lemma_chars_lt_trans(name@, mv[i as int].0, mv[q - 1].0);
                        }
                    }
                } else {
                    let p0: int = if p < i {
                        p
                    } else {
                        p - 1
                    };
                    let q0: int = if q < i {
                        q
                    } else {
                        q - 1
                    };
                    assert(nv[p] == mv[p0]);
                    assert(nv[q] == mv[q0]);
                }
            }
            assert(artifact_wf(nv));
        }
        Ok(())
    }

    /// Compares this produced artifact against `reference`, appending the
    /// findings under `prefix` to `out`: first every produced entry in key
    /// order (reported as missing from the reference, or compared under the
    /// path `prefix::key`), then every reference entry that was not produced,
    /// in reference key order.
    #[verifier::loop_isolation(false)]
    pub fn compare_against_reference(
        &self,
        out: &mut Vec<Finding>,
        prefix: &str,
        reference: &Artifact,
    )
        ensures
            fviews(final(out)@) == fviews(old(out)@) + spec_diff_artifact(
                prefix@,
                self@,
                reference@,
            ),
        decreases self,
    {
        let ghost base = fviews(old(out)@);
        let ghost av = self@;
        let ghost bv = reference@;
        proof {
            lemma_entries_view(self.entries@);
            lemma_entries_view(reference.entries@);
            assert(av.skip(0) =~= av);
        }
        let n: usize = self.entries.len();
        let mut i: usize = 0;
        while i < n
            invariant
                i <= n,
                fviews(out@) + spec_diff_entries(prefix@, av.skip(i as int), bv) == base
                    + spec_diff_entries(prefix@, av, bv),
            decreases n - i,
        {
            proof {
                assert(av.skip(i as int)[0] == av[i as int]);
                assert(av.skip(i as int).skip(1) =~= av.skip(i + 1));
            }
            let child = concat3(prefix, "::", self.entries[i].0.as_str());
            match lookup_entries(&reference.entries, self.entries[i].0.as_str()) {
                Some(vr) => {
                    let ghost pre = fviews(out@);
                    proof {
                        assert(spec_diff_entries(prefix@, av.skip(i as int), bv)
                            == spec_diff_entry(child@, av[i as int].1, vr@) + spec_diff_entries(
                            prefix@,
                            av.skip(i + 1),
                            bv,
                        ));
                    }
                    match (&self.entries[i].1, vr) {
                        (Entry::Artifact(ca), Entry::Artifact(cb)) => {
                            ca.compare_against_reference(out, child.as_str(), cb);
                        },
                        (Entry::Json(j1), Entry::Json(j2)) => {
                            diff_json(out, child.as_str(), j1, j2);
                        },
                        (Entry::Str(s1), Entry::Str(s2)) => {
                            if !str_eq(s1.as_str(), s2.as_str()) {
                                let pa = Entry::Str(s1.clone());
                                let pb = Entry::Str(s2.clone());
                                out.push(Finding::Definite(Mismatch::NotEq(child, pa, pb)));
                                proof {
                                    assert(fviews(out@) =~= fviews(out@.drop_last()).push(
                                        out@.last()@,
                                    ));
                                }
                            }
                        },
                        (Entry::Bytes(b1), Entry::Bytes(b2)) => {
                            if !bytes_eq(b1, b2) {
                                let pa = Entry::Bytes(clone_bytes(b1));
                                let pb = Entry::Bytes(clone_bytes(b2));
                                out.push(Finding::Definite(Mismatch::NotEq(child, pa, pb)));
                                proof {
                                    assert(fviews(out@) =~= fviews(out@.drop_last()).push(
                                        out@.last()@,
                                    ));
                                }
                            }
                        },
                        (v, _) => {
                            let pa = v.duplicate();
                            let pb = vr.duplicate();
                            out.push(Finding::Definite(Mismatch::NotEq(child, pa, pb)));
                            proof {
                                assert(av[i as int].1 != vr@);
                                assert(fviews(out@) =~= fviews(out@.drop_last()).push(
                                    out@.last()@,
                                ));
                            }
                        },
                    }
                    proof {
                        assert(fviews(out@) =~= pre + spec_diff_entry(child@, av[i as int].1, vr@));
                        assert(fviews(out@) + spec_diff_entries(prefix@, av.skip(i + 1), bv)
                            =~= base + spec_diff_entries(prefix@, av, bv));
                    }
                },
                None => {
                    let entry = self.entries[i].1.duplicate();
                    out.push(Finding::Definite(Mismatch::NotInReference(child, entry)));
                    proof {
                        assert(fviews(out@) =~= fviews(out@.drop_last()).push(out@.last()@));
                        assert(fviews(out@) + spec_diff_entries(prefix@, av.skip(i + 1), bv)
                            =~= base + spec_diff_entries(prefix@, av, bv));
                    }
                },
            }
            i = i + 1;
        }
        proof {
            assert(av.skip(n as int) =~= Seq::<(Seq<char>, EntryV)>::empty());
            assert(bv.skip(0) =~= bv);
        }
        let rn: usize = reference.entries.len();
        let mut j: usize = 0;
        while j < rn
            invariant
                j <= rn,
                fviews(out@) + spec_missing_entries(prefix@, av, bv.skip(j as int)) == base
                    + spec_diff_entries(prefix@, av, bv) + spec_missing_entries(prefix@, av, bv),
            decreases rn - j,
        {
            proof {
                assert(bv.skip(j as int)[0] == bv[j as int]);
                assert(bv.skip(j as int).skip(1) =~= bv.skip(j + 1));
            }
            let present = match lookup_entries(&self.entries, reference.entries[j].0.as_str()) {
                Some(_) => true,
                None => false,
            };
            if !present {
                let child = concat3(prefix, "::", reference.entries[j].0.as_str());
                let entry = reference.entries[j].1.duplicate();
                out.push(Finding::Definite(Mismatch::NotProduced(child, entry)));
                proof {
                    assert(fviews(out@) =~= fviews(out@.drop_last()).push(out@.last()@));
                }
            }
            proof {
                assert(fviews(out@) + spec_missing_entries(prefix@, av, bv.skip(j + 1)) =~= base
                    + spec_diff_entries(prefix@, av, bv) + spec_missing_entries(prefix@, av, bv));
            }
            j = j + 1;
        }
        proof {
            assert(bv.skip(rn as int) =~= Seq::<(Seq<char>, EntryV)>::empty());
            assert(fviews(out@) =~= base + spec_diff_artifact(prefix@, av, bv));
        }
    }

    /// All findings for this produced artifact against `reference`, with
    /// paths rooted at `prefix`.
    pub fn report_mismatches(&self, prefix: &str, reference: &Artifact) -> (out: Vec<Finding>)
        ensures
            fviews(out@) == spec_diff_artifact(prefix@, self@, reference@),
    {
        let mut out: Vec<Finding> = Vec::new();
        proof {
            assert(fviews(out@) =~= Seq::<FindingV>::empty());
        }
        self.compare_against_reference(&mut out, prefix, reference);
        proof {
            assert(Seq::<FindingV>::empty() + spec_diff_artifact(prefix@, self@, reference@)
                =~= spec_diff_artifact(prefix@, self@, reference@));
        }
        out
    }
}

} // verus!
