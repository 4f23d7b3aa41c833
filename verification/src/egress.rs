//! The snapshot context: claims artifacts by name during one run, and at
//! close time decides, per artifact, between archiving it as a new baseline
//! and comparing it against the loaded baseline. All file access belongs to
//! the host, which hands loaded baselines in and receives the trees to write
//! out.

use vstd::prelude::*;
use vstd::string::*;

use crate::artifact::{Artifact, EntryV, artifact_wf};
use crate::compare::{Finding, FindingV, fviews, spec_diff_artifact};
use crate::error::ErrorKind;
use crate::strings::str_eq;

verus! {

broadcast use vstd::group_vstd_default;

/// A valid artifact name: non-empty, and a bare file stem — no path
/// separators and no dot.
pub open spec fn valid_artifact_name(s: Seq<char>) -> bool {
    s.len() > 0 && forall|i: int|
        0 <= i < s.len() ==> s[i] != '/' && s[i] != '\\' && s[i] != '.'
}

/// Executable form of `valid_artifact_name`.
pub fn check_artifact_name(name: &str) -> (r: bool)
    ensures
        r == valid_artifact_name(name@),
{
    let n: usize = name.unicode_len();
    if n == 0 {
        return false;
    }
    let mut i: usize = 0;
    while i < n
        invariant
            i <= n,
            n == name@.len(),
            forall|j: int| 0 <= j < i ==> name@[j] != '/' && name@[j] != '\\' && name@[j] != '.',
        decreases n - i,
    {
        let c = name.get_char(i);
        if c == '/' || c == '\\' || c == '.' {
            return false;
        }
        i = i + 1;
    }
    true
}

/// Joining two path fragments: a separator is added unless the left side is
/// empty or already ends with one.
pub open spec fn path_join(a: Seq<char>, b: Seq<char>) -> Seq<char> {
    if a.len() == 0 {
        b
    } else if a[a.len() - 1] == '/' {
        a + b
    } else {
        a + "/"@ + b
    }
}

/// Executable form of `path_join`.
pub fn join_paths(a: &str, b: &str) -> (s: String)
    ensures
        s@ == path_join(a@, b@),
{
    let n: usize = a.unicode_len();
    if n == 0 {
        return b.to_owned();
    }
    let last = a.get_char(n - 1);
    let mut s = a.to_owned();
    if last != '/' {
        s.append("/");
    }
    s.append(b);
    s
}

/// The models of a sequence of named artifacts.
pub open spec fn pairs_view(s: Seq<(String, Artifact)>) -> Seq<
    (Seq<char>, Seq<(Seq<char>, EntryV)>),
> {
    s.map_values(|p: (String, Artifact)| (p.0@, p.1@))
}

/// The models of a sequence of optional baselines.
pub open spec fn bviews(s: Seq<Option<Artifact>>) -> Seq<Option<Seq<(Seq<char>, EntryV)>>> {
    s.map_values(
        |o: Option<Artifact>|
            match o {
                Some(a) => Some(a@),
                None => None,
            },
    )
}

/// True when some claimed pair carries the given name.
pub open spec fn spec_claimed(s: Seq<(Seq<char>, Seq<(Seq<char>, EntryV)>)>, k: Seq<char>) -> bool {
    exists|i: int| 0 <= i < s.len() && s[i].0 == k
}

/// The findings of one close cycle: for each artifact with a loaded
/// baseline, its comparison findings with paths rooted at the artifact name;
/// an artifact without a baseline contributes none.
pub open spec fn spec_close_findings(
    pairs: Seq<(Seq<char>, Seq<(Seq<char>, EntryV)>)>,
    bases: Seq<Option<Seq<(Seq<char>, EntryV)>>>,
) -> Seq<FindingV>
    decreases pairs.len(),
{
    if pairs.len() == 0 || bases.len() == 0 {
        Seq::empty()
    } else {
        (match bases[0] {
            Some(b) => spec_diff_artifact(pairs[0].0, pairs[0].1, b),
            None => Seq::empty(),
        }) + spec_close_findings(pairs.skip(1), bases.skip(1))
    }
}

/// The artifacts of one close cycle that become new baselines: exactly those
/// without a loaded baseline, in claim order.
pub open spec fn spec_close_writes(
    pairs: Seq<(Seq<char>, Seq<(Seq<char>, EntryV)>)>,
    bases: Seq<Option<Seq<(Seq<char>, EntryV)>>>,
) -> Seq<(Seq<char>, Seq<(Seq<char>, EntryV)>)>
    decreases pairs.len(),
{
    if pairs.len() == 0 || bases.len() == 0 {
        Seq::empty()
    } else {
        (match bases[0] {
            Some(_) => Seq::empty(),
            None => seq![pairs[0]],
        }) + spec_close_writes(pairs.skip(1), bases.skip(1))
    }
}

/// A testing context: artifacts claimed by name during one run, and the
/// resolved directory where this run's baselines live. The optional numeric
/// tolerances are IEEE 754 binary64 bit patterns that the host applies when
/// it answers the numeric checks.
#[derive(Debug)]
pub struct Egress {
    artifact_subdir: String,
    artifacts: Vec<(String, Artifact)>,
    /// The absolute tolerance (`|a - b| <= atol`), as a binary64 bit pattern.
    pub atol: Option<u64>,
    /// The relative tolerance (`a - b <= rtol * |b|`), as a binary64 bit
    /// pattern.
    pub rtol: Option<u64>,
}

impl View for Egress {
    type V = Seq<(Seq<char>, Seq<(Seq<char>, EntryV)>)>;

    closed spec fn view(&self) -> Seq<(Seq<char>, Seq<(Seq<char>, EntryV)>)> {
        pairs_view(self.artifacts@)
    }
}

impl Egress {
    /// Well-formedness: every claimed name is valid and unique, and every
    /// claimed artifact is well formed.
    pub closed spec fn wf(&self) -> bool {
        &&& forall|i: int|
            0 <= i < self@.len() ==> valid_artifact_name(#[trigger] self@[i].0) && artifact_wf(
                self@[i].1,
            )
        &&& forall|i: int, j: int| 0 <= i < j < self@.len() ==> self@[i].0 != self@[j].0
    }

    /// The resolved directory for this run's baselines.
    pub closed spec fn spec_subdir(&self) -> Seq<char> {
        self.artifact_subdir@
    }

    /// The configured absolute tolerance, as a binary64 bit pattern.
    pub closed spec fn spec_atol(&self) -> Option<u64> {
        self.atol
    }

    /// The configured relative tolerance, as a binary64 bit pattern.
    pub closed spec fn spec_rtol(&self) -> Option<u64> {
        self.rtol
    }

    /// Opens a context from already-loaded configuration values: the config
    /// root directory, the configured artifact directory, this run's
    /// sub-path, and the configured tolerances as binary64 bit patterns. The
    /// host reads or creates the config file itself and passes its values in.
    pub fn open(
        config_dir: &str,
        artifact_dir: &str,
        artifact_subdir: &str,
        atol: Option<u64>,
        rtol: Option<u64>,
    ) -> (e: Egress)
        ensures
            e@ == Seq::<(Seq<char>, Seq<(Seq<char>, EntryV)>)>::empty(),
            e.wf(),
            e.spec_subdir() == path_join(path_join(config_dir@, artifact_dir@), artifact_subdir@),
            e.spec_atol() == atol,
            e.spec_rtol() == rtol,
    {
        let root = join_paths(config_dir, artifact_dir);
        let subdir = join_paths(root.as_str(), artifact_subdir);
        let e = Egress { artifact_subdir: subdir, artifacts: Vec::new(), atol, rtol };
        proof {
            assert(e@ =~= Seq::<(Seq<char>, Seq<(Seq<char>, EntryV)>)>::empty());
        }
        e
    }

    /// The resolved baseline directory of this context.
    pub fn subdir(&self) -> (s: &String)
        ensures
            s@ == self.spec_subdir(),
    {
        &self.artifact_subdir
    }

    /// The claimed artifact names, in claim order.
    #[verifier::loop_isolation(false)]
    pub fn artifact_names(&self) -> (r: Vec<String>)
        ensures
            r@.len() == self@.len(),
            forall|i: int| 0 <= i < r@.len() ==> r@[i]@ == self@[i].0,
    {
        let mut r: Vec<String> = Vec::new();
        let n: usize = self.artifacts.len();
        let mut i: usize = 0;
        while i < n
            invariant
                i <= n,
                r@.len() == i,
                forall|j: int| 0 <= j < i ==> r@[j]@ == self@[j].0,
            decreases n - i,
        {
            r.push(self.artifacts[i].0.clone());
            i = i + 1;
        }
        r
    }

    /// Claims `name` and stores the artifact built for it. Fails with
    /// `InvalidName` when the name is not a bare file stem, and with
    /// `DuplicateArtifact` when the name was already claimed in this run;
    /// either failure leaves the context unchanged.
    #[verifier::loop_isolation(false)]
    pub fn artifact(&mut self, name: &str, artifact: Artifact) -> (r: Result<(), ErrorKind>)
        requires
            old(self).wf(),
            artifact_wf(artifact@),
        ensures
            final(self).wf(),
            final(self).spec_atol() == old(self).spec_atol(),
            final(self).spec_rtol() == old(self).spec_rtol(),
            final(self).spec_subdir() == old(self).spec_subdir(),
            match r {
                Ok(()) => valid_artifact_name(name@) && !spec_claimed(old(self)@, name@)
                    && final(self)@ == old(self)@.push((name@, artifact@)),
                Err(e) => final(self)@ == old(self)@ && match e {
                    ErrorKind::InvalidName(k) => k@ == name@ && !valid_artifact_name(name@),
                    ErrorKind::DuplicateArtifact(k) => k@ == name@ && valid_artifact_name(name@)
                        && spec_claimed(old(self)@, name@),
                    _ => false,
                },
            },
    {
        if !check_artifact_name(name) {
            return Err(ErrorKind::InvalidName(name.to_owned()));
        }
        let n: usize = self.artifacts.len();
        let mut i: usize = 0;
        while i < n
            invariant
                i <= n,
                forall|j: int| 0 <= j < i ==> self@[j].0 != name@,
            decreases n - i,
        {
            if str_eq(self.artifacts[i].0.as_str(), name) {
                proof {
                    assert(self@[i as int].0 == name@);
                }
                return Err(ErrorKind::DuplicateArtifact(name.to_owned()));
            }
            i = i + 1;
        }
        self.artifacts.push((name.to_owned(), artifact));
        proof {
            assert(final(self)@ =~= old(self)@.push((name@, artifact@)));
        }
        Ok(())
    }

    /// Closes the run: pairs each claimed artifact with its loaded baseline,
    /// in claim order. An artifact whose baseline slot is `None` is returned
    /// in the write list to be archived as the new baseline and contributes
    /// no findings; one with a loaded baseline is compared against it, with
    /// paths rooted at the artifact name. The host loads the baselines (by
    /// `artifact_names`), answers the numeric checks among the findings, and
    /// writes out the returned trees.
    #[verifier::loop_isolation(false)]
    pub fn close(self, baselines: &Vec<Option<Artifact>>) -> (r: (
        Vec<Finding>,
        Vec<(String, Artifact)>,
    ))
        requires
            baselines@.len() == self@.len(),
        ensures
            fviews(r.0@) == spec_close_findings(self@, bviews(baselines@)),
            pairs_view(r.1@) == spec_close_writes(self@, bviews(baselines@)),
    {
        let ghost pv = self@;
        let ghost bv = bviews(baselines@);
        let mut findings: Vec<Finding> = Vec::new();
        let mut writes: Vec<(String, Artifact)> = Vec::new();
        let n: usize = self.artifacts.len();
        let mut i: usize = 0;
        proof {
            assert(pv.skip(0) =~= pv);
            assert(bv.skip(0) =~= bv);
            assert(fviews(findings@) =~= Seq::<FindingV>::empty());
            assert(pairs_view(writes@) =~= Seq::<
                (Seq<char>, Seq<(Seq<char>, EntryV)>),
            >::empty());
        }
        while i < n
            invariant
                i <= n,
                fviews(findings@) + spec_close_findings(pv.skip(i as int), bv.skip(i as int))
                    == spec_close_findings(pv, bv),
                pairs_view(writes@) + spec_close_writes(pv.skip(i as int), bv.skip(i as int))
                    == spec_close_writes(pv, bv),
            decreases n - i,
        {
            proof {
                assert(pv.skip(i as int)[0] == pv[i as int]);
                assert(bv.skip(i as int)[0] == bv[i as int]);
                assert(pv.skip(i as int).skip(1) =~= pv.skip(i + 1));
                assert(bv.skip(i as int).skip(1) =~= bv.skip(i + 1));
            }
            match &baselines[i] {
                Some(reference) => {
                    self.artifacts[i].1.compare_against_reference(
                        &mut findings,
                        self.artifacts[i].0.as_str(),
                        reference,
                    );
                    proof {
                        assert(fviews(findings@) + spec_close_findings(
                            pv.skip(i + 1),
                            bv.skip(i + 1),
                        ) =~= spec_close_findings(pv, bv));
                        assert(pairs_view(writes@) + spec_close_writes(
                            pv.skip(i + 1),
                            bv.skip(i + 1),
                        ) =~= spec_close_writes(pv, bv));
                    }
                },
                None => {
                    let name = self.artifacts[i].0.clone();
                    let tree = self.artifacts[i].1.duplicate();
                    writes.push((name, tree));
                    proof {
                        assert(pairs_view(writes@) =~= pairs_view(writes@.drop_last()).push(
                            (writes@.last().0@, writes@.last().1@),
                        ));
                        assert(fviews(findings@) + spec_close_findings(
                            pv.skip(i + 1),
                            bv.skip(i + 1),
                        ) =~= spec_close_findings(pv, bv));
                        assert(pairs_view(writes@) + spec_close_writes(
                            pv.skip(i + 1),
                            bv.skip(i + 1),
                        ) =~= spec_close_writes(pv, bv));
                    }
                },
            }
            i = i + 1;
        }
        proof {
            assert(pv.skip(n as int) =~= Seq::<(Seq<char>, Seq<(Seq<char>, EntryV)>)>::empty());
            assert(fviews(findings@) + Seq::<FindingV>::empty() =~= fviews(findings@));
            assert(pairs_view(writes@) + Seq::<
                (Seq<char>, Seq<(Seq<char>, EntryV)>),
            >::empty() =~= pairs_view(writes@));
        }
        (findings, writes)
    }
}

} // verus!
