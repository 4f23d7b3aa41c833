//! The comparison engine: walks a produced tree and a reference tree in
//! lock-step and emits findings. A finding is either a definite mismatch or a
//! pending numeric check on two floating-point-valued numbers; the host
//! answers the pending checks (the library holds no floating-point
//! arithmetic) and `resolve` folds the answers into the final mismatch list.

use vstd::prelude::*;
use vstd::string::*;

use crate::artifact::{Entry, EntryV, spec_lookup};
use crate::json::{Json, JsonV, Num, num_as_i64, num_to_i64, obj_view, lemma_obj_view,
    lemma_arr_view};
use crate::strings::{concat3, dec_digits, str_eq, usize_to_string};

verus! {

broadcast use vstd::group_vstd_default;

/// One discrete discrepancy between a produced tree and its reference,
/// located by a fully qualified path.
#[derive(Debug)]
pub enum Mismatch {
    /// The path exists on both sides and the values differ.
    NotEq(String, Entry, Entry),
    /// The path exists in the produced tree but not in the reference.
    NotInReference(String, Entry),
    /// The path exists in the reference but not in the produced tree.
    NotProduced(String, Entry),
    /// A JSON array at the path has a different element count on each side:
    /// path, produced length, reference length, produced array, reference
    /// array.
    LengthMismatch(String, usize, usize, Entry, Entry),
}

/// The mathematical model of a `Mismatch`.
pub ghost enum MismatchV {
    /// The path exists on both sides and the values differ.
    NotEq(Seq<char>, EntryV, EntryV),
    /// The path exists in the produced tree but not in the reference.
    NotInReference(Seq<char>, EntryV),
    /// The path exists in the reference but not in the produced tree.
    NotProduced(Seq<char>, EntryV),
    /// A JSON array with different element counts on each side.
    LengthMismatch(Seq<char>, nat, nat, EntryV, EntryV),
}

impl View for Mismatch {
    type V = MismatchV;

    open spec fn view(&self) -> MismatchV {
        match self {
            Mismatch::NotEq(p, a, b) => MismatchV::NotEq(p@, a@, b@),
            Mismatch::NotInReference(p, a) => MismatchV::NotInReference(p@, a@),
            Mismatch::NotProduced(p, b) => MismatchV::NotProduced(p@, b@),
            Mismatch::LengthMismatch(p, la, lb, a, b) => MismatchV::LengthMismatch(
                p@,
                *la as nat,
                *lb as nat,
                a@,
                b@,
            ),
        }
    }
}

/// One comparison event: a definite mismatch, or a numeric check that the
/// host must answer by comparing the two numbers as binary64 values under the
/// configured tolerances.
#[derive(Debug)]
pub enum Finding {
    /// A mismatch that holds whatever the numeric tolerances are.
    Definite(Mismatch),
    /// Two numbers at a path that must be compared as binary64 values:
    /// path, produced number, reference number.
    NumericCheck(String, Num, Num),
}

/// The mathematical model of a `Finding`.
pub ghost enum FindingV {
    /// A mismatch that holds whatever the numeric tolerances are.
    Definite(MismatchV),
    /// Two numbers to be compared as binary64 values.
    NumericCheck(Seq<char>, Num, Num),
}

impl View for Finding {
    type V = FindingV;

    open spec fn view(&self) -> FindingV {
        match self {
            Finding::Definite(m) => FindingV::Definite(m@),
            Finding::NumericCheck(p, a, b) => FindingV::NumericCheck(p@, *a, *b),
        }
    }
}

/// The models of a sequence of findings.
pub open spec fn fviews(s: Seq<Finding>) -> Seq<FindingV> {
    s.map_values(|f: Finding| f@)
}

/// The models of a sequence of mismatches.
pub open spec fn mviews(s: Seq<Mismatch>) -> Seq<MismatchV> {
    s.map_values(|m: Mismatch| m@)
}

/// The findings for two numbers at a path: numbers exactly representable as
/// 64-bit signed integers on both sides are compared exactly; any other pair
/// is handed to the host as a numeric check.
pub open spec fn spec_diff_num(prefix: Seq<char>, a: Num, b: Num) -> Seq<FindingV> {
    match (num_as_i64(a), num_as_i64(b)) {
        (Some(x), Some(y)) => if x != y {
            seq![
                FindingV::Definite(
                    MismatchV::NotEq(
                        prefix,
                        EntryV::Json(JsonV::Num(Num::Int(x))),
                        EntryV::Json(JsonV::Num(Num::Int(y))),
                    ),
                ),
            ]
        } else {
            Seq::empty()
        },
        _ => seq![FindingV::NumericCheck(prefix, a, b)],
    }
}

/// The findings for a produced JSON value against a reference JSON value at a
/// path: objects are compared key by key, arrays of equal length element by
/// element and of unequal length by a single length mismatch, numbers by
/// `spec_diff_num`, and everything else by plain (hence cross-kind) equality.
pub open spec fn spec_diff_json(prefix: Seq<char>, a: JsonV, b: JsonV) -> Seq<FindingV>
    decreases a, 1nat,
{
    match (a, b) {
        (JsonV::Obj(m), JsonV::Obj(r)) => spec_diff_obj_produced(prefix, m, r)
            + spec_obj_missing(prefix, m, r),
        (JsonV::Arr(x), JsonV::Arr(y)) => {
            if x.len() != y.len() {
                seq![
                    FindingV::Definite(
                        MismatchV::LengthMismatch(
                            prefix + ".len()"@,
                            x.len(),
                            y.len(),
                            EntryV::Json(JsonV::Arr(x)),
                            EntryV::Json(JsonV::Arr(y)),
                        ),
                    ),
                ]
            } else {
                spec_diff_arr(prefix, x, y, 0)
            }
        },
        (JsonV::Num(n1), JsonV::Num(n2)) => spec_diff_num(prefix, n1, n2),
        _ => {
            if a == b {
                Seq::empty()
            } else {
                seq![
                    FindingV::Definite(
                        MismatchV::NotEq(prefix, EntryV::Json(a), EntryV::Json(b)),
                    ),
                ]
            }
        },
    }
}

/// The findings for the fields of a produced JSON object, in field order: a
/// field absent from the reference is reported, a field present on both sides
/// is compared recursively under the path `prefix.key`.
pub open spec fn spec_diff_obj_produced(
    prefix: Seq<char>,
    m: Seq<(Seq<char>, JsonV)>,
    r: Seq<(Seq<char>, JsonV)>,
) -> Seq<FindingV>
    decreases m, 0nat,
{
    if m.len() == 0 {
        Seq::empty()
    } else {
        let head = match spec_lookup(r, m[0].0) {
            Some(vr) => spec_diff_json(prefix + "."@ + m[0].0, m[0].1, vr),
            None => seq![
                FindingV::Definite(
                    MismatchV::NotInReference(
                        prefix + "."@ + m[0].0,
                        EntryV::Json(m[0].1),
                    ),
                ),
            ],
        };
        head + spec_diff_obj_produced(prefix, m.skip(1), r)
    }
}

/// The findings for the fields of a reference JSON object that the produced
/// object lacks, in reference field order.
pub open spec fn spec_obj_missing(
    prefix: Seq<char>,
    m: Seq<(Seq<char>, JsonV)>,
    r: Seq<(Seq<char>, JsonV)>,
) -> Seq<FindingV>
    decreases r.len(),
{
    if r.len() == 0 {
        Seq::empty()
    } else {
        let head: Seq<FindingV> = if spec_lookup(m, r[0].0) is None {
            seq![
                FindingV::Definite(
                    MismatchV::NotProduced(
                        prefix + "."@ + r[0].0,
                        EntryV::Json(r[0].1),
                    ),
                ),
            ]
        } else {
            Seq::empty()
        };
        head + spec_obj_missing(prefix, m, r.skip(1))
    }
}

/// The findings for the elements of two JSON arrays of equal length, element
/// by element under paths `prefix[i]`, where `i` counts from `base`.
pub open spec fn spec_diff_arr(
    prefix: Seq<char>,
    x: Seq<JsonV>,
    y: Seq<JsonV>,
    base: nat,
) -> Seq<FindingV>
    decreases x, 0nat,
{
    if x.len() == 0 || y.len() == 0 {
        Seq::empty()
    } else {
        spec_diff_json(prefix + "["@ + dec_digits(base) + "]"@, x[0], y[0]) + spec_diff_arr(
            prefix,
            x.skip(1),
            y.skip(1),
            base + 1,
        )
    }
}

/// Looks up a field of a JSON object by key.
#[verifier::loop_isolation(false)]
pub fn lookup_obj<'a>(m: &'a Vec<(String, Json)>, k: &str) -> (r: Option<&'a Json>)
    ensures
        match r {
            Some(j) => spec_lookup(obj_view(m@), k@) == Some(j@),
            None => spec_lookup(obj_view(m@), k@) is None,
        },
{
    proof {
        lemma_obj_view(m@);
        assert(obj_view(m@).skip(0) =~= obj_view(m@));
    }
    let n: usize = m.len();
    let mut i: usize = 0;
    while i < n
        invariant
            i <= n,
            spec_lookup(obj_view(m@), k@) == spec_lookup(obj_view(m@).skip(i as int), k@),
        decreases n - i,
    {
        proof {
            assert(obj_view(m@).skip(i as int)[0] == obj_view(m@)[i as int]);
            assert(obj_view(m@).skip(i as int).skip(1) =~= obj_view(m@).skip(i + 1));
        }
        if str_eq(m[i].0.as_str(), k) {
            return Some(&m[i].1);
        }
        i = i + 1;
    }
    proof {
        assert(obj_view(m@).skip(n as int) =~= Seq::empty());
    }
    None
}

/// Builds the path of an indexed array element, `prefix[i]`.
pub fn path_index(prefix: &str, i: usize) -> (s: String)
    ensures
        s@ == prefix@ + "["@ + dec_digits(i as nat) + "]"@,
{
    let idx = usize_to_string(i);
    let mut s = prefix.to_owned();
    s.append("[");
    s.append(idx.as_str());
    s.append("]");
    s
}

/// Compares a produced JSON value against a reference JSON value, appending
/// the findings for path `prefix` to `out`.
#[verifier::loop_isolation(false)]
pub fn diff_json(out: &mut Vec<Finding>, prefix: &str, a: &Json, b: &Json)
    ensures
        fviews(final(out)@) == fviews(old(out)@) + spec_diff_json(prefix@, a@, b@),
    decreases a,
{
    let ghost base = fviews(old(out)@);
    match (a, b) {
        (Json::Obj(m), Json::Obj(r)) => {
            proof {
                lemma_obj_view(m@);
                lemma_obj_view(r@);
                assert(obj_view(m@).skip(0) =~= obj_view(m@));
            }
            let n: usize = m.len();
            let mut i: usize = 0;
            while i < n
                invariant
                    i <= n,
                    fviews(out@) + spec_diff_obj_produced(prefix@, obj_view(m@).skip(i as int), obj_view(r@))
                        == base + spec_diff_obj_produced(prefix@, obj_view(m@), obj_view(r@)),
                decreases n - i,
            {
                let ghost mv = obj_view(m@);
                let ghost rv = obj_view(r@);
                proof {
                    assert(mv.skip(i as int)[0] == mv[i as int]);
                    assert(mv.skip(i as int).skip(1) =~= mv.skip(i + 1));
                }
                let child = concat3(prefix, ".", m[i].0.as_str());
                match lookup_obj(r, m[i].0.as_str()) {
                    Some(vr) => {
                        diff_json(out, child.as_str(), &m[i].1, vr);
                        proof {
                            assert(fviews(out@) + spec_diff_obj_produced(prefix@, mv.skip(i + 1), rv)
                                =~= base + spec_diff_obj_produced(prefix@, mv, rv));
                        }
                    },
                    None => {
                        let entry = Entry::Json(m[i].1.duplicate());
                        out.push(Finding::Definite(Mismatch::NotInReference(child, entry)));
                        proof {
                            assert(fviews(out@) =~= fviews(out@.drop_last()).push(out@.last()@));
                            assert(fviews(out@) + spec_diff_obj_produced(prefix@, mv.skip(i + 1), rv)
                                =~= base + spec_diff_obj_produced(prefix@, mv, rv));
                        }
                    },
                }
                i = i + 1;
            }
            proof {
                assert(obj_view(m@).skip(n as int) =~= Seq::<(Seq<char>, JsonV)>::empty());
                assert(obj_view(r@).skip(0) =~= obj_view(r@));
            }
            // Reference fields that the produced object lacks.
            let rn: usize = r.len();
            let mut j: usize = 0;
            while j < rn
                invariant
                    j <= rn,
                    fviews(out@) + spec_obj_missing(prefix@, obj_view(m@), obj_view(r@).skip(j as int))
                        == base + spec_diff_obj_produced(prefix@, obj_view(m@), obj_view(r@))
                            + spec_obj_missing(prefix@, obj_view(m@), obj_view(r@)),
                decreases rn - j,
            {
                let ghost mv = obj_view(m@);
                let ghost rv = obj_view(r@);
                proof {
                    assert(rv.skip(j as int)[0] == rv[j as int]);
                    assert(rv.skip(j as int).skip(1) =~= rv.skip(j + 1));
                }
                let present = match lookup_obj(m, r[j].0.as_str()) {
                    Some(_) => true,
                    None => false,
                };
                if !present {
                    let child = concat3(prefix, ".", r[j].0.as_str());
                    let entry = Entry::Json(r[j].1.duplicate());
                    out.push(Finding::Definite(Mismatch::NotProduced(child, entry)));
                    proof {
                        assert(fviews(out@) =~= fviews(out@.drop_last()).push(out@.last()@));
                    }
                }
                proof {
                    assert(fviews(out@) + spec_obj_missing(prefix@, mv, rv.skip(j + 1)) =~= base
                        + spec_diff_obj_produced(prefix@, mv, rv) + spec_obj_missing(
                        prefix@,
                        mv,
                        rv,
                    ));
                }
                j = j + 1;
            }
            proof {
                assert(obj_view(r@).skip(rn as int) =~= Seq::<(Seq<char>, JsonV)>::empty());
                assert(fviews(out@) =~= base + spec_diff_json(prefix@, a@, b@));
            }
        },
        (Json::Arr(x), Json::Arr(y)) => {
            proof {
                lemma_arr_view(x@);
                lemma_arr_view(y@);
            }
            if x.len() != y.len() {
                let path = {
                    let mut p = prefix.to_owned();
                    p.append(".len()");
                    p
                };
                let pa = Entry::Json(a.duplicate());
                let pb = Entry::Json(b.duplicate());
                out.push(Finding::Definite(Mismatch::LengthMismatch(path, x.len(), y.len(), pa, pb)));
                proof {
                    assert(fviews(out@) =~= fviews(out@.drop_last()).push(out@.last()@));
                    assert(fviews(out@) =~= base + spec_diff_json(prefix@, a@, b@));
                }
            } else {
                proof {
                    assert(crate::json::arr_view(x@).skip(0) =~= crate::json::arr_view(x@));
                    assert(crate::json::arr_view(y@).skip(0) =~= crate::json::arr_view(y@));
                }
                let n: usize = x.len();
                let mut i: usize = 0;
                while i < n
                    invariant
                        i <= n,
                        fviews(out@) + spec_diff_arr(prefix@, arr_skip(x@, i as int), arr_skip(y@, i as int), i as nat)
                            == base + spec_diff_arr(prefix@, crate::json::arr_view(x@), crate::json::arr_view(y@), 0),
                    decreases n - i,
                {
                    let ghost xv = crate::json::arr_view(x@);
                    let ghost yv = crate::json::arr_view(y@);
                    proof {
                        assert(xv.skip(i as int)[0] == xv[i as int]);
                        assert(xv.skip(i as int).skip(1) =~= xv.skip(i + 1));
                        assert(yv.skip(i as int)[0] == yv[i as int]);
                        assert(yv.skip(i as int).skip(1) =~= yv.skip(i + 1));
                    }
                    let child = path_index(prefix, i);
                    diff_json(out, child.as_str(), &x[i], &y[i]);
                    proof {
                        assert(fviews(out@) + spec_diff_arr(prefix@, xv.skip(i + 1), yv.skip(i + 1), (i + 1) as nat)
                            =~= base + spec_diff_arr(prefix@, xv, yv, 0));
                    }
                    i = i + 1;
                }
                proof {
                    assert(crate::json::arr_view(x@).skip(n as int) =~= Seq::<JsonV>::empty());
                    assert(fviews(out@) =~= base + spec_diff_json(prefix@, a@, b@));
                }
            }
        },
        (Json::Num(n1), Json::Num(n2)) => {
            let x = num_to_i64(n1);
            let y = num_to_i64(n2);
            match (x, y) {
                (Some(xv), Some(yv)) => {
                    if xv != yv {
                        let pa = Entry::Json(Json::Num(Num::Int(xv)));
                        let pb = Entry::Json(Json::Num(Num::Int(yv)));
                        out.push(Finding::Definite(Mismatch::NotEq(prefix.to_owned(), pa, pb)));
                        proof {
                            assert(fviews(out@) =~= fviews(out@.drop_last()).push(out@.last()@));
                            assert(fviews(out@) =~= base + spec_diff_json(prefix@, a@, b@));
                        }
                    }
                },
                _ => {
                    out.push(Finding::NumericCheck(prefix.to_owned(), *n1, *n2));
                    proof {
                        assert(fviews(out@) =~= fviews(out@.drop_last()).push(out@.last()@));
                        assert(fviews(out@) =~= base + spec_diff_json(prefix@, a@, b@));
                    }
                },
            }
        },
        (Json::Null, Json::Null) => {},
        (Json::Bool(p), Json::Bool(q)) => {
            if p != q {
                let pa = Entry::Json(Json::Bool(*p));
                let pb = Entry::Json(Json::Bool(*q));
                out.push(Finding::Definite(Mismatch::NotEq(prefix.to_owned(), pa, pb)));
                proof {
                    assert(fviews(out@) =~= fviews(out@.drop_last()).push(out@.last()@));
                    assert(fviews(out@) =~= base + spec_diff_json(prefix@, a@, b@));
                }
            }
        },
        (Json::Str(s1), Json::Str(s2)) => {
            if !str_eq(s1.as_str(), s2.as_str()) {
                let pa = Entry::Json(Json::Str(s1.clone()));
                let pb = Entry::Json(Json::Str(s2.clone()));
                out.push(Finding::Definite(Mismatch::NotEq(prefix.to_owned(), pa, pb)));
                proof {
                    assert(fviews(out@) =~= fviews(out@.drop_last()).push(out@.last()@));
                    assert(fviews(out@) =~= base + spec_diff_json(prefix@, a@, b@));
                }
            }
        },
        _ => {
            let pa = Entry::Json(a.duplicate());
            let pb = Entry::Json(b.duplicate());
            out.push(Finding::Definite(Mismatch::NotEq(prefix.to_owned(), pa, pb)));
            proof {
                assert(a@ != b@);
                assert(fviews(out@) =~= fviews(out@.drop_last()).push(out@.last()@));
                assert(fviews(out@) =~= base + spec_diff_json(prefix@, a@, b@));
            }
        },
    }
}

/// `s.skip(i)` on array element models; a helper so that loop invariants
/// stay short.
pub open spec fn arr_skip(s: Seq<Json>, i: int) -> Seq<JsonV> {
    crate::json::arr_view(s).skip(i)
}

/// The findings for one produced entry against the reference entry under the
/// same key: nested artifacts are compared recursively, JSON documents by
/// `spec_diff_json`, and any other pairing by plain (hence cross-kind)
/// equality.
pub open spec fn spec_diff_entry(path: Seq<char>, v: EntryV, vr: EntryV) -> Seq<FindingV>
    decreases v, 1nat,
{
    match (v, vr) {
        (EntryV::Artifact(ca), EntryV::Artifact(cb)) => spec_diff_artifact(path, ca, cb),
        (EntryV::Json(j1), EntryV::Json(j2)) => spec_diff_json(path, j1, j2),
        _ => {
            if v == vr {
                Seq::empty()
            } else {
                seq![FindingV::Definite(MismatchV::NotEq(path, v, vr))]
            }
        },
    }
}

/// The findings for the entries of a produced artifact, in key order: an
/// entry absent from the reference is reported, an entry present on both
/// sides is compared under the path `prefix::key`.
pub open spec fn spec_diff_entries(
    prefix: Seq<char>,
    a: Seq<(Seq<char>, EntryV)>,
    b: Seq<(Seq<char>, EntryV)>,
) -> Seq<FindingV>
    decreases a, 0nat,
{
    if a.len() == 0 {
        Seq::empty()
    } else {
        let head = match spec_lookup(b, a[0].0) {
            Some(vr) => spec_diff_entry(prefix + "::"@ + a[0].0, a[0].1, vr),
            None => seq![
                FindingV::Definite(
                    MismatchV::NotInReference(prefix + "::"@ + a[0].0, a[0].1),
                ),
            ],
        };
        head + spec_diff_entries(prefix, a.skip(1), b)
    }
}

/// The findings for the entries of a reference artifact that the produced
/// artifact lacks, in reference key order.
pub open spec fn spec_missing_entries(
    prefix: Seq<char>,
    a: Seq<(Seq<char>, EntryV)>,
    b: Seq<(Seq<char>, EntryV)>,
) -> Seq<FindingV>
    decreases b.len(),
{
    if b.len() == 0 {
        Seq::empty()
    } else {
        let head: Seq<FindingV> = if spec_lookup(a, b[0].0) is None {
            seq![
                FindingV::Definite(
                    MismatchV::NotProduced(prefix + "::"@ + b[0].0, b[0].1),
                ),
            ]
        } else {
            Seq::empty()
        };
        head + spec_missing_entries(prefix, a, b.skip(1))
    }
}

/// All findings for a produced artifact against a reference artifact: the
/// produced entries in key order, then the reference entries that were not
/// produced, in reference key order.
pub open spec fn spec_diff_artifact(
    prefix: Seq<char>,
    a: Seq<(Seq<char>, EntryV)>,
    b: Seq<(Seq<char>, EntryV)>,
) -> Seq<FindingV>
    decreases a, 2nat,
{
    spec_diff_entries(prefix, a, b) + spec_missing_entries(prefix, a, b)
}

/// The pending numeric checks among a sequence of findings, in order:
/// path, produced number, reference number.
pub open spec fn spec_checks(s: Seq<FindingV>) -> Seq<(Seq<char>, Num, Num)>
    decreases s.len(),
{
    if s.len() == 0 {
        Seq::empty()
    } else {
        match s[0] {
            FindingV::NumericCheck(p, a, b) => seq![(p, a, b)] + spec_checks(s.skip(1)),
            _ => spec_checks(s.skip(1)),
        }
    }
}

/// Folds the host's answers to the pending numeric checks into the final
/// mismatch list: definite findings are kept, a numeric check answered
/// `true` vanishes, and one answered `false` (or left unanswered) becomes a
/// `NotEq` mismatch carrying the two numbers.
pub open spec fn spec_resolve(s: Seq<FindingV>, answers: Seq<bool>) -> Seq<MismatchV>
    decreases s.len(),
{
    if s.len() == 0 {
        Seq::empty()
    } else {
        match s[0] {
            FindingV::Definite(m) => seq![m] + spec_resolve(s.skip(1), answers),
            FindingV::NumericCheck(p, a, b) => {
                if answers.len() > 0 && answers[0] {
                    spec_resolve(s.skip(1), answers.skip(1))
                } else {
                    seq![
                        MismatchV::NotEq(
                            p,
                            EntryV::Json(JsonV::Num(a)),
                            EntryV::Json(JsonV::Num(b)),
                        ),
                    ] + spec_resolve(s.skip(1), answers.skip(1))
                }
            },
        }
    }
}

/// The models of a sequence of numeric checks.
pub open spec fn cviews(s: Seq<(String, Num, Num)>) -> Seq<(Seq<char>, Num, Num)> {
    s.map_values(|t: (String, Num, Num)| (t.0@, t.1, t.2))
}

/// Extracts the pending numeric checks from a list of findings, in order.
#[verifier::loop_isolation(false)]
pub fn numeric_checks(findings: &Vec<Finding>) -> (r: Vec<(String, Num, Num)>)
    ensures
        cviews(r@) == spec_checks(fviews(findings@)),
{
    let ghost fv = fviews(findings@);
    let mut r: Vec<(String, Num, Num)> = Vec::new();
    let n: usize = findings.len();
    let mut i: usize = 0;
    proof {
        assert(fv.skip(0) =~= fv);
        assert(cviews(r@) =~= Seq::<(Seq<char>, Num, Num)>::empty());
    }
    while i < n
        invariant
            i <= n,
            cviews(r@) + spec_checks(fv.skip(i as int)) == spec_checks(fv),
        decreases n - i,
    {
        proof {
            assert(fv.skip(i as int)[0] == fv[i as int]);
            assert(fv.skip(i as int).skip(1) =~= fv.skip(i + 1));
        }
        match &findings[i] {
            Finding::NumericCheck(p, a, b) => {
                r.push((p.clone(), *a, *b));
                proof {
                    assert(cviews(r@) =~= cviews(r@.drop_last()).push(
                        (r@.last().0@, r@.last().1, r@.last().2),
                    ));
                    assert(cviews(r@) + spec_checks(fv.skip(i + 1)) =~= spec_checks(fv));
                }
            },
            _ => {
                proof {
                    assert(cviews(r@) + spec_checks(fv.skip(i + 1)) =~= spec_checks(fv));
                }
            },
        }
        i = i + 1;
    }
    proof {
        assert(fv.skip(n as int) =~= Seq::<FindingV>::empty());
        assert(cviews(r@) + Seq::<(Seq<char>, Num, Num)>::empty() =~= cviews(r@));
    }
    r
}

/// Applies the host's answers to the findings, producing the final mismatch
/// list. `answers[k]` answers the `k`-th numeric check in finding order:
/// `true` means the two numbers are equal under the configured tolerances.
#[verifier::loop_isolation(false)]
pub fn resolve(findings: &Vec<Finding>, answers: &Vec<bool>) -> (r: Vec<Mismatch>)
    requires
        answers@.len() == spec_checks(fviews(findings@)).len(),
    ensures
        mviews(r@) == spec_resolve(fviews(findings@), answers@),
{
    let ghost fv = fviews(findings@);
    let ghost ansv = answers@;
    let mut r: Vec<Mismatch> = Vec::new();
    let n: usize = findings.len();
    let ans_len: usize = answers.len();
    let mut i: usize = 0;
    let mut j: usize = 0;
    proof {
        assert(fv.skip(0) =~= fv);
        assert(ansv.skip(0) =~= ansv);
        assert(mviews(r@) =~= Seq::<MismatchV>::empty());
    }
    while i < n
        invariant
            i <= n,
            j <= ans_len,
            ansv.len() == ans_len,
            spec_checks(fv.skip(i as int)).len() == ansv.len() - j,
            mviews(r@) + spec_resolve(fv.skip(i as int), ansv.skip(j as int)) == spec_resolve(
                fv,
                ansv,
            ),
        decreases n - i,
    {
        proof {
            assert(fv.skip(i as int)[0] == fv[i as int]);
            assert(fv.skip(i as int).skip(1) =~= fv.skip(i + 1));
        }
        match &findings[i] {
            Finding::Definite(m) => {
                let copy = duplicate_mismatch(m);
                r.push(copy);
                proof {
                    assert(mviews(r@) =~= mviews(r@.drop_last()).push(r@.last()@));
                    assert(mviews(r@) + spec_resolve(fv.skip(i + 1), ansv.skip(j as int))
                        =~= spec_resolve(fv, ansv));
                }
            },
            Finding::NumericCheck(p, a, b) => {
                proof {
                    assert(spec_checks(fv.skip(i as int)).len() >= 1);
                    assert(j < ansv.len());
                    assert(ansv.skip(j as int)[0] == ansv[j as int]);
                    assert(ansv.skip(j as int).skip(1) =~= ansv.skip(j + 1));
                }
                if !answers[j] {
                    let pa = Entry::Json(Json::Num(*a));
                    let pb = Entry::Json(Json::Num(*b));
                    r.push(Mismatch::NotEq(p.clone(), pa, pb));
                    proof {
                        assert(mviews(r@) =~= mviews(r@.drop_last()).push(r@.last()@));
                    }
                }
                proof {
                    assert(mviews(r@) + spec_resolve(fv.skip(i + 1), ansv.skip(j + 1))
                        =~= spec_resolve(fv, ansv));
                }
                j = j + 1;
            },
        }
        i = i + 1;
    }
    proof {
        assert(fv.skip(n as int) =~= Seq::<FindingV>::empty());
        assert(mviews(r@) + Seq::<MismatchV>::empty() =~= mviews(r@));
    }
    r
}

/// Deep copy of a mismatch; the copy has the same mathematical value.
pub fn duplicate_mismatch(m: &Mismatch) -> (r: Mismatch)
    ensures
        r@ == m@,
{
    match m {
        Mismatch::NotEq(p, a, b) => Mismatch::NotEq(p.clone(), a.duplicate(), b.duplicate()),
        Mismatch::NotInReference(p, a) => Mismatch::NotInReference(p.clone(), a.duplicate()),
        Mismatch::NotProduced(p, b) => Mismatch::NotProduced(p.clone(), b.duplicate()),
        Mismatch::LengthMismatch(p, la, lb, a, b) => Mismatch::LengthMismatch(
            p.clone(),
            *la,
            *lb,
            a.duplicate(),
            b.duplicate(),
        ),
    }
}

/// Tests two byte vectors for equality.
pub fn bytes_eq(a: &Vec<u8>, b: &Vec<u8>) -> (r: bool)
    ensures
        r == (a@ == b@),
{
    if a.len() != b.len() {
        proof {
            assert(a@.len() != b@.len());
        }
        return false;
    }
    let n: usize = a.len();
    let mut i: usize = 0;
    while i < n
        invariant
            i <= n,
            n == a@.len(),
            n == b@.len(),
            forall|j: int| 0 <= j < i ==> a@[j] == b@[j],
        decreases n - i,
    {
        if a[i] != b[i] {
            return false;
        }
        i = i + 1;
    }
    proof {
        assert(a@ =~= b@);
    }
    true
}

} // verus!
