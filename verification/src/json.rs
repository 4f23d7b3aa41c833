//! The library's JSON-like document model: null, booleans, numbers, strings,
//! arrays and string-keyed objects. Numbers are 64-bit signed or unsigned
//! integers, or binary64 floating-point values carried by their IEEE 754 bit
//! pattern so that the comparison engine can treat them as plain integers.

use vstd::prelude::*;

verus! {

broadcast use vstd::group_vstd_default;

/// A JSON number: a 64-bit signed integer, a 64-bit unsigned integer too
/// large for `i64`, or a binary64 floating-point value held as its IEEE 754
/// bit pattern.
#[derive(Clone, Copy, PartialEq, Eq, Structural, Debug)]
pub enum Num {
    /// A signed integer.
    Int(i64),
    /// An unsigned integer.
    UInt(u64),
    /// The IEEE 754 bit pattern of a binary64 value.
    Float(u64),
}

/// A JSON-like value.
#[derive(Debug)]
pub enum Json {
    /// JSON `null`.
    Null,
    /// A boolean.
    Bool(bool),
    /// A number.
    Num(Num),
    /// A string.
    Str(String),
    /// An ordered array.
    Arr(Vec<Json>),
    /// A string-keyed object; order is preserved and keys must be unique.
    Obj(Vec<(String, Json)>),
}

/// The mathematical model of a `Json` value.
pub ghost enum JsonV {
    /// JSON `null`.
    Null,
    /// A boolean.
    Bool(bool),
    /// A number.
    Num(Num),
    /// A string.
    Str(Seq<char>),
    /// An ordered array.
    Arr(Seq<JsonV>),
    /// A string-keyed object.
    Obj(Seq<(Seq<char>, JsonV)>),
}

/// The models of the elements of a JSON array.
pub open spec fn arr_view(s: Seq<Json>) -> Seq<JsonV>
    decreases s,
{
    if s.len() == 0 {
        Seq::empty()
    } else {
        seq![s[0]@] + arr_view(s.skip(1))
    }
}

/// The models of the fields of a JSON object.
pub open spec fn obj_view(s: Seq<(String, Json)>) -> Seq<(Seq<char>, JsonV)>
    decreases s,
{
    if s.len() == 0 {
        Seq::empty()
    } else {
        seq![(s[0].0@, s[0].1@)] + obj_view(s.skip(1))
    }
}

impl View for Json {
    type V = JsonV;

    open spec fn view(&self) -> JsonV
        decreases self,
    {
        match self {
            Json::Null => JsonV::Null,
            Json::Bool(b) => JsonV::Bool(*b),
            Json::Num(n) => JsonV::Num(*n),
            Json::Str(s) => JsonV::Str(s@),
            Json::Arr(v) => JsonV::Arr(arr_view(v@)),
            Json::Obj(m) => JsonV::Obj(obj_view(m@)),
        }
    }
}

/// `arr_view` is the pointwise model of the elements.
pub proof fn lemma_arr_view(s: Seq<Json>)
    ensures
        arr_view(s).len() == s.len(),
        forall|i: int| 0 <= i < s.len() ==> arr_view(s)[i] == s[i]@,
    decreases s.len(),
{
    if s.len() > 0 {
        lemma_arr_view(s.skip(1));
        assert(arr_view(s) == seq![s[0]@] + arr_view(s.skip(1)));
        assert forall|i: int| 0 <= i < s.len() implies arr_view(s)[i] == s[i]@ by {
            if i > 0 {
                assert(arr_view(s)[i] == arr_view(s.skip(1))[i - 1]);
                assert(s.skip(1)[i - 1] == s[i]);
            }
        }
    }
}

/// `obj_view` is the pointwise model of the fields.
pub proof fn lemma_obj_view(s: Seq<(String, Json)>)
    ensures
        obj_view(s).len() == s.len(),
        forall|i: int| 0 <= i < s.len() ==> obj_view(s)[i] == (s[i].0@, s[i].1@),
    decreases s.len(),
{
    if s.len() > 0 {
        lemma_obj_view(s.skip(1));
        assert(obj_view(s) == seq![(s[0].0@, s[0].1@)] + obj_view(s.skip(1)));
        assert forall|i: int| 0 <= i < s.len() implies obj_view(s)[i] == (s[i].0@, s[i].1@) by {
            if i > 0 {
                assert(obj_view(s)[i] == obj_view(s.skip(1))[i - 1]);
                assert(s.skip(1)[i - 1] == s[i]);
            }
        }
    }
}

/// True when `bits` encodes a finite IEEE 754 binary64 value: the exponent
/// field is not all ones (which would mean an infinity or a NaN).
pub open spec fn is_finite_bits(bits: u64) -> bool {
    (bits >> 52) & 0x7ff != 0x7ff
}

/// A number is well formed when a floating-point value is finite; JSON
/// documents cannot hold infinities or NaNs.
pub open spec fn num_wf(n: Num) -> bool {
    match n {
        Num::Float(bits) => is_finite_bits(bits),
        _ => true,
    }
}

/// True when no two entries of a keyed sequence share a key.
pub open spec fn keys_unique<T>(m: Seq<(Seq<char>, T)>) -> bool {
    forall|i: int, j: int| 0 <= i < j < m.len() ==> m[i].0 != m[j].0
}

/// Well-formedness of a JSON value: every number is well formed and every
/// object has unique keys, recursively.
pub open spec fn json_wf(j: JsonV) -> bool
    decreases j,
{
    match j {
        JsonV::Num(n) => num_wf(n),
        JsonV::Arr(s) => forall|i: int| 0 <= i < s.len() ==> json_wf(#[trigger] s[i]),
        JsonV::Obj(m) => keys_unique(m) && forall|i: int|
            0 <= i < m.len() ==> json_wf(#[trigger] m[i].1),
        _ => true,
    }
}

/// The value of a number as a 64-bit signed integer, when it is exactly
/// representable as one; floating-point values never are, mirroring the
/// source-document distinction between integer and floating-point tokens.
pub open spec fn num_as_i64(n: Num) -> Option<i64> {
    match n {
        Num::Int(i) => Some(i),
        Num::UInt(u) => if u <= i64::MAX as u64 {
            Some(u as i64)
        } else {
            None
        },
        Num::Float(_) => None,
    }
}

/// Executable form of `num_as_i64`.
pub fn num_to_i64(n: &Num) -> (r: Option<i64>)
    ensures
        r == num_as_i64(*n),
{
    match n {
        Num::Int(i) => Some(*i),
        Num::UInt(u) => {
            if *u <= i64::MAX as u64 {
                Some(*u as i64)
            } else {
                None
            }
        },
        Num::Float(_) => None,
    }
}

/// Deep copy of a byte vector.
pub fn clone_bytes(b: &Vec<u8>) -> (r: Vec<u8>)
    ensures
        r@ == b@,
{
    let r = b.clone();
    proof {
        assert(r@ =~= b@);
    }
    r
}

impl Json {
    /// Deep copy; the copy has the same mathematical value.
    #[verifier::loop_isolation(false)]
    pub fn duplicate(&self) -> (r: Json)
        ensures
            r@ == self@,
        decreases self,
    {
        match self {
            Json::Null => Json::Null,
            Json::Bool(b) => Json::Bool(*b),
            Json::Num(n) => Json::Num(*n),
            Json::Str(s) => Json::Str(s.clone()),
            Json::Arr(v) => {
                let mut out: Vec<Json> = Vec::new();
                let mut i: usize = 0;
                while i < v.len()
                    invariant
                        i <= v.len(),
                        out@.len() == i,
                        forall|j: int| 0 <= j < i ==> out@[j]@ == v@[j]@,
                    decreases v.len() - i,
                {
                    out.push(v[i].duplicate());
                    i = i + 1;
                }
                proof {
                    lemma_arr_view(out@);
                    lemma_arr_view(v@);
                    assert(arr_view(out@) =~= arr_view(v@));
                }
                Json::Arr(out)
            },
            Json::Obj(m) => {
                let mut out: Vec<(String, Json)> = Vec::new();
                let mut i: usize = 0;
                while i < m.len()
                    invariant
                        i <= m.len(),
                        out@.len() == i,
                        forall|j: int|
                            0 <= j < i ==> out@[j].0@ == m@[j].0@ && out@[j].1@ == m@[j].1@,
                    decreases m.len() - i,
                {
                    let key = m[i].0.clone();
                    let val = m[i].1.duplicate();
                    out.push((key, val));
                    i = i + 1;
                }
                proof {
                    lemma_obj_view(out@);
                    lemma_obj_view(m@);
                    assert(obj_view(out@) =~= obj_view(m@));
                }
                Json::Obj(out)
            },
        }
    }
}

} // verus!
