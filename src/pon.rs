//! Property-expression values: the typed nodes that templates carry and the
//! entity store holds.
use vstd::prelude::*;

verus! {

/// A typed property value.
#[derive(Debug, PartialEq)]
pub enum Pon {
    Integer(i64),
    Str(String),
    Array(Vec<Pon>),
    Transform { name: String, data: Box<Pon> },
}

/// The mathematical value of a `Pon`.
pub enum PonModel {
    Integer(i64),
    Str(Seq<char>),
    Array(Seq<PonModel>),
    Transform { name: Seq<char>, data: Box<PonModel> },
}

/// Why a value does not have the shape that a reader asked of it.
#[derive(Debug, PartialEq)]
pub enum TranslateError {
    /// The value is not an array.
    ExpectedArray,
    /// The value is not a named transform.
    ExpectedTransform,
    /// The value is not a string.
    ExpectedString,
    /// A loading directive carries a name that is not known.
    UnrecognizedType(String),
}

/// The model of a value: strings as character sequences, arrays as sequences.
pub open spec fn pon_model(p: &Pon) -> PonModel
    decreases p,
{
    match p {
        Pon::Integer(i) => PonModel::Integer(*i),
        Pon::Str(s) => PonModel::Str(s@),
        Pon::Array(v) => PonModel::Array(
            Seq::new(
                v.len() as nat,
                |i: int|
                    if 0 <= i < v.len() {
                        pon_model(&v@[i])
                    } else {
                        PonModel::Integer(0)
                    },
            ),
        ),
        Pon::Transform { name, data } => PonModel::Transform {
            name: name@,
            data: Box::new(pon_model(data)),
        },
    }
}

fn deep_clone(p: &Pon) -> (r: Pon)
    ensures
        pon_model(&r) == pon_model(p),
    decreases p,
{
    match p {
        Pon::Integer(i) => Pon::Integer(*i),
        Pon::Str(s) => Pon::Str(s.clone()),
        Pon::Array(v) => {
            proof {
                assert(decreases_to!(*p => *v));
                assert forall|j: int| 0 <= j < v.len() implies decreases_to!(*p => v@[j]) by {
                    assert(decreases_to!(*v => v@[j]));
                }
            }
            let mut out: Vec<Pon> = Vec::new();
            let mut i: usize = 0;
            while i < v.len()
                invariant
                    i <= v.len(),
                    *p == Pon::Array(*v),
                    forall|j: int| 0 <= j < v.len() ==> decreases_to!(*p => v@[j]),
                    out.len() == i,
                    forall|j: int| 0 <= j < i ==> pon_model(&out@[j]) == pon_model(&v@[j]),
                decreases v.len() - i,
            {
                let c = deep_clone(&v[i]);
                out.push(c);
                i = i + 1;
            }
            let r = Pon::Array(out);
            proof {
                if let (PonModel::Array(a), PonModel::Array(b)) = (pon_model(&r), pon_model(p)) {
                    assert(a =~= b);
                }
            }
            r
        },
        Pon::Transform { name, data } => {
            Pon::Transform { name: name.clone(), data: Box::new(deep_clone(data)) }
        },
    }
}

impl Pon {
    /// A copy of this value, equal to it as a model.
    pub fn duplicate(&self) -> (r: Pon)
        ensures
            pon_model(&r) == pon_model(self),
    {
        deep_clone(self)
    }

    /// The elements of an array value.
    pub fn as_array(&self) -> (r: Result<&Vec<Pon>, TranslateError>)
        ensures
            match self {
                Pon::Array(v) => r == Ok::<&Vec<Pon>, TranslateError>(v),
                _ => r is Err && r->Err_0 is ExpectedArray,
            },
    {
        match self {
            Pon::Array(v) => Ok(v),
            _ => Err(TranslateError::ExpectedArray),
        }
    }

    /// The name and argument of a transform value.
    pub fn as_transform(&self) -> (r: Result<(&String, &Pon), TranslateError>)
        ensures
            match self {
                Pon::Transform { name, data } => r is Ok && r->Ok_0.0 == name && *r->Ok_0.1 == **data,
                _ => r is Err && r->Err_0 is ExpectedTransform,
            },
    {
        match self {
            Pon::Transform { name, data } => Ok((name, &**data)),
            _ => Err(TranslateError::ExpectedTransform),
        }
    }

    /// The text of a string value.
    pub fn as_string(&self) -> (r: Result<&String, TranslateError>)
        ensures
            match self {
                Pon::Str(s) => r == Ok::<&String, TranslateError>(s),
                _ => r is Err && r->Err_0 is ExpectedString,
            },
    {
        match self {
            Pon::Str(s) => Ok(s),
            _ => Err(TranslateError::ExpectedString),
        }
    }
}

} // verus!
