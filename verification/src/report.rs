//! The comparison report: the ordered mismatches of one finalize cycle and
//! their rendering as human-readable lines. An empty report means the run is
//! unregressed.

use vstd::prelude::*;
use vstd::string::*;

use crate::compare::{Mismatch, MismatchV, mviews};
use crate::strings::{dec_digits, usize_to_string};

verus! {

broadcast use vstd::group_vstd_default;

/// Comparison report for newly produced artifacts versus their stored
/// baselines: the ordered list of every mismatch found in one cycle. Empty
/// means pass.
#[must_use]
#[derive(Debug)]
pub struct Report {
    mismatches: Vec<Mismatch>,
}

impl View for Report {
    type V = Seq<MismatchV>;

    closed spec fn view(&self) -> Seq<MismatchV> {
        mviews(self.mismatches@)
    }
}

/// The human-readable line describing one mismatch: its kind and its path,
/// with both lengths for a length mismatch.
pub open spec fn render_line(m: MismatchV) -> Seq<char> {
    match m {
        MismatchV::NotEq(p, _, _) => "MISMATCH: entry `"@ + p
            + "` not the same as the reference value"@,
        MismatchV::NotInReference(p, _) => "MISMATCH: entry `"@ + p
            + "` does not exist in the reference"@,
        MismatchV::NotProduced(p, _) => "MISMATCH: entry `"@ + p
            + "` exists in the reference but was not found here"@,
        MismatchV::LengthMismatch(p, la, lb, _, _) => "MISMATCH: entry `"@ + p
            + "` has length `"@ + dec_digits(lb) + "` in the reference but length `"@
            + dec_digits(la) + "` in the newly produced artifact."@,
    }
}

impl Report {
    /// Wraps a mismatch list into a report.
    pub fn new(mismatches: Vec<Mismatch>) -> (r: Report)
        ensures
            r@ == mviews(mismatches@),
    {
        Report { mismatches }
    }

    /// The number of mismatches.
    pub fn len(&self) -> (n: usize)
        ensures
            n == self@.len(),
    {
        self.mismatches.len()
    }

    /// True when no mismatch was found.
    pub fn is_unregressed(&self) -> (r: bool)
        ensures
            r == (self@.len() == 0),
    {
        self.mismatches.len() == 0
    }

    /// The mismatches, in comparison order.
    pub fn mismatches(&self) -> (r: &Vec<Mismatch>)
        ensures
            mviews(r@) == self@,
    {
        &self.mismatches
    }

    /// Checks that no mismatch was found. The caller must only reach this
    /// call with an empty report; a host that wants to abort on a non-empty
    /// one renders `render_lines` and fails the run itself.
    pub fn assert_unregressed(self)
        requires
            self@.len() == 0,
    {
    }

    /// One human-readable line per mismatch, in order: the mismatch kind and
    /// its path, with both lengths for a length mismatch.
    #[verifier::loop_isolation(false)]
    pub fn render_lines(&self) -> (r: Vec<String>)
        ensures
            r@.len() == self@.len(),
            forall|i: int| 0 <= i < r@.len() ==> r@[i]@ == render_line(self@[i]),
    {
        let mut r: Vec<String> = Vec::new();
        let n: usize = self.mismatches.len();
        let mut i: usize = 0;
        while i < n
            invariant
                i <= n,
                r@.len() == i,
                forall|j: int| 0 <= j < i ==> r@[j]@ == render_line(self@[j]),
            decreases n - i,
        {
            let line: String = match &self.mismatches[i] {
                Mismatch::NotEq(p, _, _) => {
                    let mut s = "MISMATCH: entry `".to_owned();
                    s.append(p.as_str());
                    s.append("` not the same as the reference value");
                    s
                },
                Mismatch::NotInReference(p, _) => {
                    let mut s = "MISMATCH: entry `".to_owned();
                    s.append(p.as_str());
                    s.append("` does not exist in the reference");
                    s
                },
                Mismatch::NotProduced(p, _) => {
                    let mut s = "MISMATCH: entry `".to_owned();
                    s.append(p.as_str());
                    s.append("` exists in the reference but was not found here");
                    s
                },
                Mismatch::LengthMismatch(p, la, lb, _, _) => {
                    let la_str = usize_to_string(*la);
                    let lb_str = usize_to_string(*lb);
                    let mut s = "MISMATCH: entry `".to_owned();
                    s.append(p.as_str());
                    s.append("` has length `");
                    s.append(lb_str.as_str());
                    s.append("` in the reference but length `");
                    s.append(la_str.as_str());
                    s.append("` in the newly produced artifact.");
                    s
                },
            };
            r.push(line);
            i = i + 1;
        }
        r
    }
}

} // verus!
