use egress::compare::{numeric_checks, resolve};
use egress::{Artifact, Egress, Entry, ErrorKind, Finding, Json, Mismatch, Num, Report};

/// The host's tolerance check, applied to two binary64 bit patterns: with no
/// tolerance set the values must be equal; with only `rtol` set the signed
/// difference must satisfy `a - b <= rtol * |b|`; with only `atol` set the
/// absolute difference must satisfy `|a - b| <= atol`; with both set, both.
fn tol_check(a_bits: u64, b_bits: u64, atol: Option<u64>, rtol: Option<u64>) -> bool {
    let a = f64::from_bits(a_bits);
    let b = f64::from_bits(b_bits);
    match (atol.map(f64::from_bits), rtol.map(f64::from_bits)) {
        (None, None) => a == b,
        (None, Some(rt)) => (a - b) <= rt * b.abs(),
        (Some(at), None) => (a - b).abs() <= at,
        (Some(at), Some(rt)) => ((a - b) <= rt * b.abs()) && ((a - b).abs() <= at),
    }
}

fn num_to_f64(n: &Num) -> f64 {
    match n {
        Num::Int(i) => *i as f64,
        Num::UInt(u) => *u as f64,
        Num::Float(b) => f64::from_bits(*b),
    }
}

/// Answers every pending numeric check among the findings with the host's
/// tolerance check.
fn answer(findings: &Vec<Finding>, atol: Option<u64>, rtol: Option<u64>) -> Vec<bool> {
    let checks = numeric_checks(findings);
    let mut answers: Vec<bool> = Vec::new();
    for (_, a, b) in checks.iter() {
        answers.push(tol_check(
            num_to_f64(a).to_bits(),
            num_to_f64(b).to_bits(),
            atol,
            rtol,
        ));
    }
    answers
}

fn finish(findings: Vec<Finding>, atol: Option<u64>, rtol: Option<u64>) -> Report {
    let answers = answer(&findings, atol, rtol);
    Report::new(resolve(&findings, &answers))
}

fn compare_artifacts(a: &Artifact, b: &Artifact, atol: Option<u64>, rtol: Option<u64>) -> Report {
    finish(a.report_mismatches("x", b), atol, rtol)
}

fn bits(x: f64) -> u64 {
    x.to_bits()
}

/// Serializes an artifact into a `serde_json` document the way the on-disk
/// baseline format does: the artifact as an object, each entry externally
/// tagged by its kind.
fn artifact_to_value(a: &Artifact) -> serde_json::Value {
    let mut map = serde_json::Map::new();
    let n = a.len();
    for i in 0..n {
        let pair = a.entry_at(i);
        map.insert(pair.0.clone(), entry_to_value(&pair.1));
    }
    serde_json::Value::Object(map)
}

fn entry_to_value(e: &Entry) -> serde_json::Value {
    let mut tag = serde_json::Map::new();
    match e {
        Entry::Str(s) => {
            tag.insert("Str".to_string(), serde_json::Value::String(s.clone()));
        }
        Entry::Json(j) => {
            tag.insert("Json".to_string(), json_to_value(j));
        }
        Entry::Bytes(b) => {
            let nums: Vec<serde_json::Value> = b
                .iter()
                .map(|x| serde_json::Value::Number(serde_json::Number::from(*x)))
                .collect();
            tag.insert("Bytes".to_string(), serde_json::Value::Array(nums));
        }
        Entry::Artifact(child) => {
            tag.insert("Artifact".to_string(), artifact_to_value(child));
        }
    }
    serde_json::Value::Object(tag)
}

fn json_to_value(j: &Json) -> serde_json::Value {
    match j {
        Json::Null => serde_json::Value::Null,
        Json::Bool(b) => serde_json::Value::Bool(*b),
        Json::Num(Num::Int(i)) => serde_json::Value::Number(serde_json::Number::from(*i)),
        Json::Num(Num::UInt(u)) => serde_json::Value::Number(serde_json::Number::from(*u)),
        Json::Num(Num::Float(bits)) => serde_json::Value::Number(
            serde_json::Number::from_f64(f64::from_bits(*bits)).unwrap(),
        ),
        Json::Str(s) => serde_json::Value::String(s.clone()),
        Json::Arr(v) => serde_json::Value::Array(v.iter().map(json_to_value).collect()),
        Json::Obj(m) => {
            let mut map = serde_json::Map::new();
            for (k, x) in m.iter() {
                map.insert(k.clone(), json_to_value(x));
            }
            serde_json::Value::Object(map)
        }
    }
}

fn value_to_artifact(v: &serde_json::Value) -> Artifact {
    let mut a = Artifact::new();
    let map = match v {
        serde_json::Value::Object(m) => m,
        _ => panic!("baseline root must be an object"),
    };
    for (k, tagged) in map.iter() {
        a.insert(k, value_to_entry(tagged)).unwrap();
    }
    a
}

fn value_to_entry(v: &serde_json::Value) -> Entry {
    let map = match v {
        serde_json::Value::Object(m) => m,
        _ => panic!("entry must be a tagged object"),
    };
    let (tag, inner) = map.iter().next().unwrap();
    match tag.as_str() {
        "Str" => Entry::Str(inner.as_str().unwrap().to_string()),
        "Json" => Entry::Json(value_to_json(inner)),
        "Bytes" => Entry::Bytes(
            inner
                .as_array()
                .unwrap()
                .iter()
                .map(|x| x.as_u64().unwrap() as u8)
                .collect(),
        ),
        "Artifact" => Entry::Artifact(value_to_artifact(inner)),
        _ => panic!("unknown entry tag"),
    }
}

fn value_to_json(v: &serde_json::Value) -> Json {
    match v {
        serde_json::Value::Null => Json::Null,
        serde_json::Value::Bool(b) => Json::Bool(*b),
        serde_json::Value::Number(n) => {
            if let Some(i) = n.as_i64() {
                Json::Num(Num::Int(i))
            } else if let Some(u) = n.as_u64() {
                Json::Num(Num::UInt(u))
            } else {
                Json::Num(Num::Float(n.as_f64().unwrap().to_bits()))
            }
        }
        serde_json::Value::String(s) => Json::Str(s.clone()),
        serde_json::Value::Array(a) => Json::Arr(a.iter().map(value_to_json).collect()),
        serde_json::Value::Object(m) => Json::Obj(
            m.iter()
                .map(|(k, x)| (k.clone(), value_to_json(x)))
                .collect(),
        ),
    }
}

fn fruits_artifact(fruits: &[&str]) -> Artifact {
    let mut artifact = Artifact::new();
    artifact.insert_serialize("fruits", &fruits.to_vec()).unwrap();
    artifact
}

#[test]
fn open() {
    let egress = Egress::open(
        "demo",
        "egress/artifacts/",
        "rust_out",
        Some(bits(0.0)),
        Some(bits(0.0)),
    );
    assert_eq!(egress.subdir().as_str(), "demo/egress/artifacts/rust_out");
}

#[test]
fn mismatches() {
    // First run: no baseline exists, so the artifact is archived and the
    // report is empty.
    let mut reference_run = Egress::open("tests/mismatches", "egress/artifacts/", "mismatches", None, None);
    reference_run
        .artifact("test", fruits_artifact(&["apples", "bananas", "oranges"]))
        .unwrap();
    let baselines: Vec<Option<Artifact>> = vec![None];
    let (findings, mut writes) = reference_run.close(&baselines);
    assert!(finish(findings, None, None).is_unregressed());
    assert_eq!(writes.len(), 1);
    assert_eq!(writes[0].0, "test");

    // Second run: compared against the stored baseline, the changed fruit is
    // the one and only mismatch, at its exact path.
    let baseline = writes.remove(0).1;
    let mut new_run = Egress::open("tests/mismatches", "egress/artifacts/", "mismatches", None, None);
    new_run
        .artifact("test", fruits_artifact(&["apples", "pears", "oranges"]))
        .unwrap();
    let (findings, writes) = new_run.close(&vec![Some(baseline)]);
    assert_eq!(writes.len(), 0);
    let report = finish(findings, None, None);
    assert_eq!(report.len(), 1);
    match &report.mismatches()[0] {
        Mismatch::NotEq(path, produced, reference) => {
            assert_eq!(path.as_str(), "test::fruits[1]");
            assert!(matches!(produced, Entry::Json(Json::Str(s)) if s == "pears"));
            assert!(matches!(reference, Entry::Json(Json::Str(s)) if s == "bananas"));
        }
        other => panic!("expected NotEq, got {:?}", other),
    }
}

#[test]
fn numbers_mismatches() {
    let atol = Some(bits(0.001));
    let mut egress = Egress::open("demo", "egress/artifacts/", "numbers", atol, None);
    let mut artifact = Artifact::new();
    let super_complex_test_output_that_could_change_at_any_time = 2;
    artifact
        .insert_serialize(
            "1 + 1 (serde)",
            &super_complex_test_output_that_could_change_at_any_time,
        )
        .unwrap();
    egress.artifact("basic_arithmetic", artifact).unwrap();
    let (findings, mut writes) = egress.close(&vec![None]);
    finish(findings, atol, None).assert_unregressed();

    // A second, identical run against the stored baseline also passes.
    let baseline = writes.remove(0).1;
    let mut egress = Egress::open("demo", "egress/artifacts/", "numbers", atol, None);
    let mut artifact = Artifact::new();
    artifact.insert_serialize("1 + 1 (serde)", &2).unwrap();
    egress.artifact("basic_arithmetic", artifact).unwrap();
    let (findings, _) = egress.close(&vec![Some(baseline)]);
    finish(findings, atol, None).assert_unregressed();
}

fn one_number_artifact(n: Num) -> Artifact {
    let mut a = Artifact::new();
    a.insert_json("v", Json::Num(n)).unwrap();
    a
}

#[test]
fn tolerance_atol_passes() {
    let a = one_number_artifact(Num::Float(bits(1.0)));
    let b = one_number_artifact(Num::Float(bits(1.0005)));
    let report = compare_artifacts(&a, &b, Some(bits(0.001)), None);
    assert!(report.is_unregressed());
}

#[test]
fn tolerance_atol_fails() {
    let a = one_number_artifact(Num::Float(bits(1.0)));
    let b = one_number_artifact(Num::Float(bits(1.0005)));
    let report = compare_artifacts(&a, &b, Some(bits(0.0001)), None);
    assert_eq!(report.len(), 1);
    match &report.mismatches()[0] {
        Mismatch::NotEq(path, _, _) => assert_eq!(path.as_str(), "x::v"),
        other => panic!("expected NotEq, got {:?}", other),
    }
}

#[test]
fn tolerance_integer_exact_passes() {
    let a = one_number_artifact(Num::Int(5));
    let b = one_number_artifact(Num::Int(5));
    assert!(compare_artifacts(&a, &b, None, None).is_unregressed());
}

#[test]
fn tolerance_integer_exact_fails() {
    let a = one_number_artifact(Num::Int(5));
    let b = one_number_artifact(Num::Int(6));
    let report = compare_artifacts(&a, &b, None, None);
    assert_eq!(report.len(), 1);
    match &report.mismatches()[0] {
        Mismatch::NotEq(_, produced, reference) => {
            assert!(matches!(produced, Entry::Json(Json::Num(Num::Int(5)))));
            assert!(matches!(reference, Entry::Json(Json::Num(Num::Int(6)))));
        }
        other => panic!("expected NotEq, got {:?}", other),
    }
}

#[test]
fn mixed_int_and_float_compare_as_floats() {
    let a = one_number_artifact(Num::Int(1));
    let b = one_number_artifact(Num::Float(bits(1.0)));
    assert!(compare_artifacts(&a, &b, None, None).is_unregressed());
}

#[test]
fn round_trip_self_comparison() {
    let mut inner = Artifact::new();
    inner.insert("text", Entry::Str("hello".to_string())).unwrap();
    inner.insert("blob", Entry::Bytes(vec![0, 1, 2, 255])).unwrap();
    let mut artifact = Artifact::new();
    artifact
        .insert_json(
            "doc",
            Json::Obj(vec![
                ("flag".to_string(), Json::Bool(true)),
                ("nothing".to_string(), Json::Null),
                (
                    "nums".to_string(),
                    Json::Arr(vec![
                        Json::Num(Num::Int(-3)),
                        Json::Num(Num::UInt(u64::MAX)),
                        Json::Num(Num::Float(bits(2.5))),
                    ]),
                ),
            ]),
        )
        .unwrap();
    artifact.insert("nested", Entry::Artifact(inner)).unwrap();

    let text = serde_json::to_string_pretty(&artifact_to_value(&artifact)).unwrap();
    let reloaded = value_to_artifact(&serde_json::from_str(&text).unwrap());
    let report = compare_artifacts(&artifact, &reloaded, Some(bits(0.0)), Some(bits(0.0)));
    assert!(report.is_unregressed());
}

#[test]
fn disjoint_keys_all_missing() {
    let mut a = Artifact::new();
    a.insert("alpha", Entry::Str("1".to_string())).unwrap();
    a.insert("beta", Entry::Str("2".to_string())).unwrap();
    let mut b = Artifact::new();
    b.insert("gamma", Entry::Str("3".to_string())).unwrap();
    b.insert("delta", Entry::Str("4".to_string())).unwrap();
    let report = compare_artifacts(&a, &b, None, None);
    assert_eq!(report.len(), 4);
    let ms = report.mismatches();
    assert!(matches!(&ms[0], Mismatch::NotInReference(p, _) if p == "x::alpha"));
    assert!(matches!(&ms[1], Mismatch::NotInReference(p, _) if p == "x::beta"));
    assert!(matches!(&ms[2], Mismatch::NotProduced(p, _) if p == "x::delta"));
    assert!(matches!(&ms[3], Mismatch::NotProduced(p, _) if p == "x::gamma"));
    for m in ms.iter() {
        assert!(!matches!(m, Mismatch::NotEq(_, _, _)));
    }
}

#[test]
fn array_length_mismatch_is_sole_finding() {
    let mut a = Artifact::new();
    a.insert_json(
        "k",
        Json::Arr(vec![Json::Num(Num::Int(1)), Json::Num(Num::Int(2))]),
    )
    .unwrap();
    let mut b = Artifact::new();
    b.insert_json(
        "k",
        Json::Arr(vec![
            Json::Num(Num::Int(1)),
            Json::Num(Num::Int(2)),
            Json::Num(Num::Int(3)),
        ]),
    )
    .unwrap();
    let report = compare_artifacts(&a, &b, None, None);
    assert_eq!(report.len(), 1);
    match &report.mismatches()[0] {
        Mismatch::LengthMismatch(path, produced_len, reference_len, _, _) => {
            assert_eq!(path.as_str(), "x::k.len()");
            assert_eq!(*produced_len, 2);
            assert_eq!(*reference_len, 3);
        }
        other => panic!("expected LengthMismatch, got {:?}", other),
    }
}

#[test]
fn duplicate_key_insertion_fails_before_any_store_interaction() {
    let mut artifact = Artifact::new();
    artifact.insert("k", Entry::Str("first".to_string())).unwrap();
    let result = artifact.insert("k", Entry::Str("second".to_string()));
    assert!(matches!(result, Err(ErrorKind::DuplicateKey(k)) if k == "k"));
    // Nothing was overwritten and no store was touched: the artifact still
    // holds exactly the first value.
    assert_eq!(artifact.len(), 1);
    assert!(matches!(&artifact.entry_at(0).1, Entry::Str(s) if s == "first"));
}

#[test]
fn duplicate_artifact_claim_fails() {
    let mut egress = Egress::open("demo", "egress/artifacts/", "dup", None, None);
    egress.artifact("same", Artifact::new()).unwrap();
    let result = egress.artifact("same", Artifact::new());
    assert!(matches!(result, Err(ErrorKind::DuplicateArtifact(k)) if k == "same"));
}

#[test]
fn invalid_artifact_names_are_rejected() {
    let mut egress = Egress::open("demo", "egress/artifacts/", "names", None, None);
    assert!(matches!(
        egress.artifact("a/b", Artifact::new()),
        Err(ErrorKind::InvalidName(_))
    ));
    assert!(matches!(
        egress.artifact("a.json", Artifact::new()),
        Err(ErrorKind::InvalidName(_))
    ));
    assert!(matches!(
        egress.artifact("", Artifact::new()),
        Err(ErrorKind::InvalidName(_))
    ));
    assert!(egress.artifact("plain_name", Artifact::new()).is_ok());
}

#[test]
fn serialize_failure_is_a_json_error() {
    let mut artifact = Artifact::new();
    let mut bad_keys = std::collections::BTreeMap::new();
    bad_keys.insert(vec![1u8, 2u8], 3);
    let result = artifact.insert_serialize("k", &bad_keys);
    assert!(matches!(result, Err(ErrorKind::JsonError(_))));
    assert_eq!(artifact.len(), 0);
}

#[test]
fn first_run_writes_baseline_and_passes() {
    let mut egress = Egress::open("demo", "egress/artifacts/", "first", None, None);
    let mut artifact = Artifact::new();
    artifact.insert("greeting", Entry::Str("hi".to_string())).unwrap();
    egress.artifact("snap", artifact).unwrap();
    let (findings, writes) = egress.close(&vec![None]);
    assert!(finish(findings, None, None).is_unregressed());
    assert_eq!(writes.len(), 1);
    assert_eq!(writes[0].0, "snap");
    assert_eq!(writes[0].1.len(), 1);
}

#[test]
fn entries_iterate_in_key_order() {
    let mut artifact = Artifact::new();
    artifact.insert("zeta", Entry::Str("z".to_string())).unwrap();
    artifact.insert("alpha", Entry::Str("a".to_string())).unwrap();
    artifact.insert("mid", Entry::Str("m".to_string())).unwrap();
    assert_eq!(artifact.entry_at(0).0, "alpha");
    assert_eq!(artifact.entry_at(1).0, "mid");
    assert_eq!(artifact.entry_at(2).0, "zeta");
}

#[test]
fn insert_debug_and_display_render_text() {
    let mut artifact = Artifact::new();
    artifact.insert_debug("dbg", &2).unwrap();
    artifact.insert_display("disp", &2).unwrap();
    assert!(matches!(&artifact.entry_at(0).1, Entry::Str(s) if s == "2"));
    assert!(matches!(&artifact.entry_at(1).1, Entry::Str(s) if s == "2"));
}

#[test]
fn render_lines_describe_each_mismatch() {
    let mut a = Artifact::new();
    a.insert_json(
        "k",
        Json::Arr(vec![Json::Num(Num::Int(1)), Json::Num(Num::Int(2))]),
    )
    .unwrap();
    let mut b = Artifact::new();
    b.insert_json("k", Json::Arr(vec![Json::Num(Num::Int(1))])).unwrap();
    let report = compare_artifacts(&a, &b, None, None);
    let lines = report.render_lines();
    assert_eq!(lines.len(), 1);
    assert_eq!(
        lines[0],
        "MISMATCH: entry `x::k.len()` has length `1` in the reference but length `2` in the newly produced artifact."
    );
}

#[test]
fn relative_tolerance_is_one_sided() {
    // The relative-tolerance-only rule is the signed check
    // `a - b <= rtol * |b|`: a produced value far BELOW the reference still
    // passes, while one the same distance above does not.
    let below = one_number_artifact(Num::Float(bits(0.5)));
    let above = one_number_artifact(Num::Float(bits(1.5)));
    let reference = one_number_artifact(Num::Float(bits(1.0)));
    let rtol = Some(bits(0.1));
    assert!(compare_artifacts(&below, &reference, None, rtol).is_unregressed());
    assert_eq!(compare_artifacts(&above, &reference, None, rtol).len(), 1);
}

#[test]
fn empty_artifacts_compare_clean() {
    let a = Artifact::new();
    let b = Artifact::new();
    assert!(compare_artifacts(&a, &b, None, None).is_unregressed());
}

#[test]
fn json_object_fields_use_dot_paths() {
    let mut a = Artifact::new();
    a.insert_json(
        "k",
        Json::Obj(vec![
            ("shared".to_string(), Json::Num(Num::Int(1))),
            ("only_produced".to_string(), Json::Num(Num::Int(2))),
        ]),
    )
    .unwrap();
    let mut b = Artifact::new();
    b.insert_json(
        "k",
        Json::Obj(vec![
            ("shared".to_string(), Json::Num(Num::Int(1))),
            ("only_reference".to_string(), Json::Num(Num::Int(3))),
        ]),
    )
    .unwrap();
    let report = compare_artifacts(&a, &b, None, None);
    assert_eq!(report.len(), 2);
    let ms = report.mismatches();
    assert!(matches!(&ms[0], Mismatch::NotInReference(p, _) if p == "x::k.only_produced"));
    assert!(matches!(&ms[1], Mismatch::NotProduced(p, _) if p == "x::k.only_reference"));
}

#[test]
fn nested_artifact_paths_use_double_colon() {
    let mut inner_a = Artifact::new();
    inner_a.insert("leaf", Entry::Str("one".to_string())).unwrap();
    let mut inner_b = Artifact::new();
    inner_b.insert("leaf", Entry::Str("two".to_string())).unwrap();
    let mut a = Artifact::new();
    a.insert("outer", Entry::Artifact(inner_a)).unwrap();
    let mut b = Artifact::new();
    b.insert("outer", Entry::Artifact(inner_b)).unwrap();
    let report = compare_artifacts(&a, &b, None, None);
    assert_eq!(report.len(), 1);
    assert!(matches!(&report.mismatches()[0], Mismatch::NotEq(p, _, _) if p == "x::outer::leaf"));
}

#[test]
fn entries_of_different_kinds_are_not_equal() {
    let mut a = Artifact::new();
    a.insert("k", Entry::Str("text".to_string())).unwrap();
    let mut b = Artifact::new();
    b.insert("k", Entry::Bytes(vec![1, 2, 3])).unwrap();
    let report = compare_artifacts(&a, &b, None, None);
    assert_eq!(report.len(), 1);
    assert!(matches!(&report.mismatches()[0], Mismatch::NotEq(p, _, _) if p == "x::k"));
}

#[test]
fn large_unsigned_compares_as_float() {
    // u64::MAX has no i64 form, so the pair goes down the floating-point
    // path; a failed check records the original numbers.
    let a = one_number_artifact(Num::UInt(u64::MAX));
    let b = one_number_artifact(Num::Int(-1));
    let report = compare_artifacts(&a, &b, None, None);
    assert_eq!(report.len(), 1);
    match &report.mismatches()[0] {
        Mismatch::NotEq(_, produced, reference) => {
            assert!(matches!(produced, Entry::Json(Json::Num(Num::UInt(u))) if *u == u64::MAX));
            assert!(matches!(reference, Entry::Json(Json::Num(Num::Int(-1)))));
        }
        other => panic!("expected NotEq, got {:?}", other),
    }
}

#[test]
fn bytes_entries_compare_by_content() {
    let mut a = Artifact::new();
    a.insert("k", Entry::Bytes(vec![1, 2, 3])).unwrap();
    let mut same = Artifact::new();
    same.insert("k", Entry::Bytes(vec![1, 2, 3])).unwrap();
    let mut different = Artifact::new();
    different.insert("k", Entry::Bytes(vec![1, 2, 4])).unwrap();
    assert!(compare_artifacts(&a, &same, None, None).is_unregressed());
    assert_eq!(compare_artifacts(&a, &different, None, None).len(), 1);
}
