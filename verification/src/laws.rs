//! Laws of the comparison engine, stated and proved over its specification:
//! comparing a tree against an equal copy yields nothing but trivially
//! answered numeric checks (and hence an empty report), comparing artifacts
//! with no common keys yields exactly one missing-entry mismatch per key,
//! and arrays of unequal length yield exactly one length mismatch.

use vstd::prelude::*;

use crate::artifact::{EntryV, artifact_wf, entry_wf, lemma_lookup, lemma_lookup_at,
    lemma_sorted_unique, spec_lookup};
use crate::compare::{FindingV, MismatchV, spec_checks, spec_diff_arr, spec_diff_artifact,
    spec_diff_entries, spec_diff_entry, spec_diff_json, spec_diff_num, spec_diff_obj_produced,
    spec_missing_entries, spec_obj_missing, spec_resolve};
use crate::json::{JsonV, json_wf, keys_unique, num_wf};

verus! {

broadcast use vstd::group_vstd_default;

/// True when every finding is a numeric check whose two numbers are the same
/// well-formed (hence finite) number.
pub open spec fn all_equal_checks(s: Seq<FindingV>) -> bool {
    forall|k: int|
        0 <= k < s.len() ==> (#[trigger] s[k] matches FindingV::NumericCheck(p, x, y) && x == y
            && num_wf(x))
}

/// `all_equal_checks` is preserved by concatenation.
proof fn lemma_all_equal_checks_concat(s1: Seq<FindingV>, s2: Seq<FindingV>)
    requires
        all_equal_checks(s1),
        all_equal_checks(s2),
    ensures
        all_equal_checks(s1 + s2),
{
    assert forall|k: int| 0 <= k < (s1 + s2).len() implies (#[trigger] (s1 + s2)[k] matches
        FindingV::NumericCheck(p, x, y) && x == y && num_wf(x)) by {
        if k < s1.len() {
            assert((s1 + s2)[k] == s1[k]);
        } else {
            assert((s1 + s2)[k] == s2[k - s1.len()]);
        }
    }
}

/// Comparing a JSON value against itself yields nothing but numeric checks
/// on identical finite numbers.
proof fn lemma_self_json(prefix: Seq<char>, j: JsonV)
    requires
        json_wf(j),
    ensures
        all_equal_checks(spec_diff_json(prefix, j, j)),
    decreases j, 1nat,
{
    match j {
        JsonV::Obj(m) => {
            lemma_lookup_same(m);
            assert forall|i: int| 0 <= i < m.len() implies json_wf(#[trigger] m[i].1) by {}
            lemma_self_obj(prefix, m, m);
            lemma_self_obj_missing(prefix, m, m);
            lemma_all_equal_checks_concat(
                spec_diff_obj_produced(prefix, m, m),
                spec_obj_missing(prefix, m, m),
            );
        },
        JsonV::Arr(x) => {
            lemma_self_arr(prefix, x, 0);
        },
        JsonV::Num(n) => {
            assert(all_equal_checks(spec_diff_num(prefix, n, n)));
        },
        _ => {},
    }
}

/// Under unique keys, looking any element's key up finds that element.
proof fn lemma_lookup_same<T>(m: Seq<(Seq<char>, T)>)
    requires
        keys_unique(m),
    ensures
        forall|i: int| 0 <= i < m.len() ==> spec_lookup(m, #[trigger] m[i].0) == Some(m[i].1),
{
    assert forall|i: int| 0 <= i < m.len() implies spec_lookup(m, #[trigger] m[i].0) == Some(
        m[i].1,
    ) by {
        lemma_lookup_at(m, i);
    }
}

/// Self-comparison of the produced pass over an object's fields, where every
/// field of the suffix `m` looks up to itself in the full object `r`.
proof fn lemma_self_obj(
    prefix: Seq<char>,
    m: Seq<(Seq<char>, JsonV)>,
    r: Seq<(Seq<char>, JsonV)>,
)
    requires
        forall|i: int|
            0 <= i < m.len() ==> spec_lookup(r, #[trigger] m[i].0) == Some(m[i].1) && json_wf(
                m[i].1,
            ),
    ensures
        all_equal_checks(spec_diff_obj_produced(prefix, m, r)),
    decreases m, 0nat,
{
    if m.len() > 0 {
        lemma_self_json(prefix + "."@ + m[0].0, m[0].1);
        assert forall|i: int|
            0 <= i < m.skip(1).len() implies spec_lookup(r, #[trigger] m.skip(1)[i].0) == Some(
            m.skip(1)[i].1,
        ) && json_wf(m.skip(1)[i].1) by {
            assert(m.skip(1)[i] == m[i + 1]);
        }
        lemma_self_obj(prefix, m.skip(1), r);
        lemma_all_equal_checks_concat(
            spec_diff_json(prefix + "."@ + m[0].0, m[0].1, m[0].1),
            spec_diff_obj_produced(prefix, m.skip(1), r),
        );
    }
}

/// The missing pass over an object's fields is empty when every reference
/// field is present in the produced object.
proof fn lemma_self_obj_missing(
    prefix: Seq<char>,
    m: Seq<(Seq<char>, JsonV)>,
    r: Seq<(Seq<char>, JsonV)>,
)
    requires
        forall|i: int| 0 <= i < r.len() ==> spec_lookup(m, #[trigger] r[i].0) is Some,
    ensures
        spec_obj_missing(prefix, m, r) == Seq::<FindingV>::empty(),
    decreases r.len(),
{
    if r.len() > 0 {
        assert forall|i: int|
            0 <= i < r.skip(1).len() implies spec_lookup(m, #[trigger] r.skip(1)[i].0) is Some by {
            assert(r.skip(1)[i] == r[i + 1]);
        }
        lemma_self_obj_missing(prefix, m, r.skip(1));
        assert(spec_obj_missing(prefix, m, r) =~= Seq::<FindingV>::empty());
    }
}

/// Self-comparison of array elements.
proof fn lemma_self_arr(prefix: Seq<char>, x: Seq<JsonV>, base: nat)
    requires
        forall|i: int| 0 <= i < x.len() ==> json_wf(#[trigger] x[i]),
    ensures
        all_equal_checks(spec_diff_arr(prefix, x, x, base)),
    decreases x, 0nat,
{
    if x.len() > 0 {
        lemma_self_json(prefix + "["@ + crate::strings::dec_digits(base) + "]"@, x[0]);
        assert forall|i: int| 0 <= i < x.skip(1).len() implies json_wf(#[trigger] x.skip(1)[i]) by {
            assert(x.skip(1)[i] == x[i + 1]);
        }
        lemma_self_arr(prefix, x.skip(1), base + 1);
        lemma_all_equal_checks_concat(
            spec_diff_json(prefix + "["@ + crate::strings::dec_digits(base) + "]"@, x[0], x[0]),
            spec_diff_arr(prefix, x.skip(1), x.skip(1), base + 1),
        );
    }
}

/// Self-comparison of one entry against itself.
proof fn lemma_self_entry(path: Seq<char>, v: EntryV)
    requires
        entry_wf(v),
    ensures
        all_equal_checks(spec_diff_entry(path, v, v)),
    decreases v, 1nat,
{
    match v {
        EntryV::Artifact(ca) => {
            lemma_self_compare(path, ca);
        },
        EntryV::Json(j) => {
            lemma_self_json(path, j);
        },
        _ => {},
    }
}

/// Self-comparison of the produced pass over an artifact's entries, where
/// every entry of the suffix `a` looks up to itself in the full artifact `b`.
proof fn lemma_self_entries(
    prefix: Seq<char>,
    a: Seq<(Seq<char>, EntryV)>,
    b: Seq<(Seq<char>, EntryV)>,
)
    requires
        forall|i: int|
            0 <= i < a.len() ==> spec_lookup(b, #[trigger] a[i].0) == Some(a[i].1) && entry_wf(
                a[i].1,
            ),
    ensures
        all_equal_checks(spec_diff_entries(prefix, a, b)),
    decreases a, 0nat,
{
    if a.len() > 0 {
        lemma_self_entry(prefix + "::"@ + a[0].0, a[0].1);
        assert forall|i: int|
            0 <= i < a.skip(1).len() implies spec_lookup(b, #[trigger] a.skip(1)[i].0) == Some(
            a.skip(1)[i].1,
        ) && entry_wf(a.skip(1)[i].1) by {
            assert(a.skip(1)[i] == a[i + 1]);
        }
        lemma_self_entries(prefix, a.skip(1), b);
        lemma_all_equal_checks_concat(
            spec_diff_entry(prefix + "::"@ + a[0].0, a[0].1, a[0].1),
            spec_diff_entries(prefix, a.skip(1), b),
        );
    }
}

/// The missing pass over an artifact's entries is empty when every reference
/// entry is present in the produced artifact.
proof fn lemma_self_missing_entries(
    prefix: Seq<char>,
    a: Seq<(Seq<char>, EntryV)>,
    b: Seq<(Seq<char>, EntryV)>,
)
    requires
        forall|i: int| 0 <= i < b.len() ==> spec_lookup(a, #[trigger] b[i].0) is Some,
    ensures
        spec_missing_entries(prefix, a, b) == Seq::<FindingV>::empty(),
    decreases b.len(),
{
    if b.len() > 0 {
        assert forall|i: int|
            0 <= i < b.skip(1).len() implies spec_lookup(a, #[trigger] b.skip(1)[i].0) is Some by {
            assert(b.skip(1)[i] == b[i + 1]);
        }
        lemma_self_missing_entries(prefix, a, b.skip(1));
        assert(spec_missing_entries(prefix, a, b) =~= Seq::<FindingV>::empty());
    }
}

/// Comparing a well-formed artifact against itself yields nothing but
/// numeric checks on identical finite numbers — in particular, no definite
/// mismatch of any kind.
pub proof fn lemma_self_compare(prefix: Seq<char>, a: Seq<(Seq<char>, EntryV)>)
    requires
        artifact_wf(a),
    ensures
        all_equal_checks(spec_diff_artifact(prefix, a, a)),
    decreases a, 2nat,
{
    lemma_sorted_unique(a);
    lemma_lookup_same(a);
    lemma_self_entries(prefix, a, a);
    lemma_self_missing_entries(prefix, a, a);
    lemma_all_equal_checks_concat(
        spec_diff_entries(prefix, a, a),
        spec_missing_entries(prefix, a, a),
    );
}

/// Resolving findings that are all numeric checks on identical numbers, with
/// every check answered positively, yields no mismatch at all.
pub proof fn lemma_resolve_equal_checks(s: Seq<FindingV>, answers: Seq<bool>)
    requires
        all_equal_checks(s),
        answers.len() == spec_checks(s).len(),
        forall|i: int| 0 <= i < answers.len() ==> answers[i],
    ensures
        spec_resolve(s, answers) == Seq::<MismatchV>::empty(),
    decreases s.len(),
{
    if s.len() > 0 {
        assert(s[0] matches FindingV::NumericCheck(p, x, y) && x == y && num_wf(x));
        assert(spec_checks(s).len() >= 1);
        assert forall|k: int| 0 <= k < s.skip(1).len() implies (#[trigger] s.skip(1)[k] matches
            FindingV::NumericCheck(p, x, y) && x == y && num_wf(x)) by {
            assert(s.skip(1)[k] == s[k + 1]);
        }
        assert(answers[0]);
        lemma_resolve_equal_checks(s.skip(1), answers.skip(1));
        assert(spec_resolve(s, answers) =~= Seq::<MismatchV>::empty());
    }
}

/// Round-trip self-comparison law: comparing a well-formed artifact against
/// an equal copy of itself — such as one reloaded from its own exactly
/// round-tripping serialized form — produces findings that are nothing but
/// numeric checks pairing each finite floating-point leaf with itself, and a
/// host whose tolerance check accepts a finite value against its own bit
/// pattern (every IEEE 754 comparison under sane tolerances does) therefore
/// resolves them to an empty report.
pub proof fn lemma_self_compare_unregressed(
    prefix: Seq<char>,
    a: Seq<(Seq<char>, EntryV)>,
    answers: Seq<bool>,
)
    requires
        artifact_wf(a),
        answers.len() == spec_checks(spec_diff_artifact(prefix, a, a)).len(),
        forall|i: int| 0 <= i < answers.len() ==> answers[i],
    ensures
        all_equal_checks(spec_diff_artifact(prefix, a, a)),
        spec_resolve(spec_diff_artifact(prefix, a, a), answers) == Seq::<MismatchV>::empty(),
{
    lemma_self_compare(prefix, a);
    lemma_resolve_equal_checks(spec_diff_artifact(prefix, a, a), answers);
}

/// Disjoint-key law, produced side: when no produced key occurs in the
/// reference, the produced pass reports exactly one `NotInReference` per
/// produced entry, in order.
proof fn lemma_disjoint_entries(
    prefix: Seq<char>,
    a: Seq<(Seq<char>, EntryV)>,
    b: Seq<(Seq<char>, EntryV)>,
)
    requires
        forall|i: int, j: int|
            0 <= i < a.len() && 0 <= j < b.len() ==> #[trigger] a[i].0 != #[trigger] b[j].0,
    ensures
        spec_diff_entries(prefix, a, b).len() == a.len(),
        forall|k: int|
            0 <= k < a.len() ==> spec_diff_entries(prefix, a, b)[k] == FindingV::Definite(
                MismatchV::NotInReference(prefix + "::"@ + a[k].0, a[k].1),
            ),
    decreases a.len(),
{
    if a.len() > 0 {
        lemma_lookup(b, a[0].0);
        if spec_lookup(b, a[0].0) is Some {
            let j = choose|j: int| 0 <= j < b.len() && b[j].0 == a[0].0;
            assert(false);
        }
        assert forall|i: int, j: int|
            0 <= i < a.skip(1).len() && 0 <= j < b.len() implies #[trigger] a.skip(1)[i].0 != (
        #[trigger] b[j].0) by {
            assert(a.skip(1)[i] == a[i + 1]);
        }
        lemma_disjoint_entries(prefix, a.skip(1), b);
        let head = seq![
            FindingV::Definite(MismatchV::NotInReference(prefix + "::"@ + a[0].0, a[0].1)),
        ];
        assert(spec_diff_entries(prefix, a, b) == head + spec_diff_entries(prefix, a.skip(1), b));
        assert forall|k: int|
            0 <= k < a.len() implies spec_diff_entries(prefix, a, b)[k] == FindingV::Definite(
            MismatchV::NotInReference(prefix + "::"@ + a[k].0, a[k].1),
        ) by {
            if k > 0 {
                assert(spec_diff_entries(prefix, a, b)[k] == spec_diff_entries(
                    prefix,
                    a.skip(1),
                    b,
                )[k - 1]);
                assert(a.skip(1)[k - 1] == a[k]);
            }
        }
    }
}

/// Disjoint-key law, reference side: when no reference key occurs in the
/// produced artifact, the missing pass reports exactly one `NotProduced` per
/// reference entry, in order.
proof fn lemma_disjoint_missing(
    prefix: Seq<char>,
    a: Seq<(Seq<char>, EntryV)>,
    b: Seq<(Seq<char>, EntryV)>,
)
    requires
        forall|i: int, j: int|
            0 <= i < a.len() && 0 <= j < b.len() ==> #[trigger] a[i].0 != #[trigger] b[j].0,
    ensures
        spec_missing_entries(prefix, a, b).len() == b.len(),
        forall|k: int|
            0 <= k < b.len() ==> spec_missing_entries(prefix, a, b)[k] == FindingV::Definite(
                MismatchV::NotProduced(prefix + "::"@ + b[k].0, b[k].1),
            ),
    decreases b.len(),
{
    if b.len() > 0 {
        lemma_lookup(a, b[0].0);
        if spec_lookup(a, b[0].0) is Some {
            let i = choose|i: int| 0 <= i < a.len() && a[i].0 == b[0].0;
            assert(false);
        }
        assert forall|i: int, j: int|
            0 <= i < a.len() && 0 <= j < b.skip(1).len() implies #[trigger] a[i].0 != (
        #[trigger] b.skip(1)[j].0) by {
            assert(b.skip(1)[j] == b[j + 1]);
        }
        lemma_disjoint_missing(prefix, a, b.skip(1));
        let head = seq![
            FindingV::Definite(MismatchV::NotProduced(prefix + "::"@ + b[0].0, b[0].1)),
        ];
        assert(spec_missing_entries(prefix, a, b) == head + spec_missing_entries(
            prefix,
            a,
            b.skip(1),
        ));
        assert forall|k: int|
            0 <= k < b.len() implies spec_missing_entries(prefix, a, b)[k] == FindingV::Definite(
            MismatchV::NotProduced(prefix + "::"@ + b[k].0, b[k].1),
        ) by {
            if k > 0 {
                assert(spec_missing_entries(prefix, a, b)[k] == spec_missing_entries(
                    prefix,
                    a,
                    b.skip(1),
                )[k - 1]);
                assert(b.skip(1)[k - 1] == b[k]);
            }
        }
    }
}

/// Disjoint-key law: comparing two artifacts with no common keys yields
/// exactly one finding per key of either side — a `NotInReference` for each
/// produced entry, then a `NotProduced` for each reference entry, and in
/// particular no `NotEq` and no numeric check.
pub proof fn lemma_disjoint_compare(
    prefix: Seq<char>,
    a: Seq<(Seq<char>, EntryV)>,
    b: Seq<(Seq<char>, EntryV)>,
)
    requires
        forall|i: int, j: int|
            0 <= i < a.len() && 0 <= j < b.len() ==> #[trigger] a[i].0 != #[trigger] b[j].0,
    ensures
        spec_diff_artifact(prefix, a, b).len() == a.len() + b.len(),
        forall|k: int|
            0 <= k < a.len() ==> spec_diff_artifact(prefix, a, b)[k] == FindingV::Definite(
                MismatchV::NotInReference(prefix + "::"@ + a[k].0, a[k].1),
            ),
        forall|k: int|
            a.len() <= k < a.len() + b.len() ==> spec_diff_artifact(prefix, a, b)[k]
                == FindingV::Definite(
                MismatchV::NotProduced(prefix + "::"@ + b[k - a.len()].0, b[k - a.len()].1),
            ),
{
    lemma_disjoint_entries(prefix, a, b);
    lemma_disjoint_missing(prefix, a, b);
}

/// Length-mismatch law: comparing two JSON arrays of unequal length yields
/// exactly one finding — a `LengthMismatch` at the array's path carrying
/// both lengths and both arrays — and none for any element.
pub proof fn lemma_length_mismatch(prefix: Seq<char>, x: Seq<JsonV>, y: Seq<JsonV>)
    requires
        x.len() != y.len(),
    ensures
        spec_diff_json(prefix, JsonV::Arr(x), JsonV::Arr(y)) == seq![
            FindingV::Definite(
                MismatchV::LengthMismatch(
                    prefix + ".len()"@,
                    x.len(),
                    y.len(),
                    EntryV::Json(JsonV::Arr(x)),
                    EntryV::Json(JsonV::Arr(y)),
                ),
            ),
        ],
{
}

} // verus!
