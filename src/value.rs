use vstd::prelude::*;
use vstd::string::StringExecFns;

verus! {

/// A literal value: a 64-bit signed integer, a floating-point number, or text.
///
/// A floating-point literal is held as the decimal text it was written with
/// (digits, a `.`, and possibly more digits); its value is the `f64` that this
/// text denotes.
#[derive(Debug, Clone)]
pub enum DynType {
    I64(i64),
    F64(String),
    Str(String),
}

/// Why two values could not be combined, or a value not converted.
#[derive(Debug, Clone, Copy, PartialEq, Eq, Structural)]
pub enum ValueError {
    /// The two values are of different kinds.
    TypeMismatch,
    /// The sum does not fit in the range of its kind.
    Overflow,
    /// Adding two floating-point numbers needs floating-point arithmetic,
    /// which this library leaves to its host.
    FloatArithmetic,
    /// The value is not of the kind asked for.
    WrongKind,
}

/// The kind of a value: 0 for integers, 1 for floats, 2 for text.
pub open spec fn kind_of(v: DynType) -> int {
    match v {
        DynType::I64(_) => 0,
        DynType::F64(_) => 1,
        DynType::Str(_) => 2,
    }
}

impl DynType {
    /// A copy of this value that is equal to it.
    pub fn duplicate(&self) -> (r: DynType)
        ensures
            r == *self,
    {
        match self {
            DynType::I64(v) => DynType::I64(*v),
            DynType::F64(s) => DynType::F64(s.clone()),
            DynType::Str(s) => DynType::Str(s.clone()),
        }
    }

    /// Combines two values of the same kind: integers are added, texts are
    /// concatenated. Values of different kinds give `TypeMismatch`.
    pub fn add(self, rhs: DynType) -> (r: Result<DynType, ValueError>)
        ensures
            kind_of(self) != kind_of(rhs) <==> r == Err::<DynType, ValueError>(ValueError::TypeMismatch),
            match (self, rhs) {
                (DynType::I64(x), DynType::I64(y)) => if i64::MIN <= x + y <= i64::MAX {
                    r == Ok::<DynType, ValueError>(DynType::I64((x + y) as i64))
                } else {
                    r == Err::<DynType, ValueError>(ValueError::Overflow)
                },
                (DynType::Str(x), DynType::Str(y)) => match r {
                    Ok(DynType::Str(z)) => z@ == x@ + y@,
                    _ => false,
                },
                (DynType::F64(_), DynType::F64(_)) => r == Err::<DynType, ValueError>(
                    ValueError::FloatArithmetic,
                ),
                _ => r == Err::<DynType, ValueError>(ValueError::TypeMismatch),
            },
    {
        match (self, rhs) {
            (DynType::I64(a), DynType::I64(b)) => {
                match a.checked_add(b) {
                    Some(c) => Ok(DynType::I64(c)),
                    None => Err(ValueError::Overflow),
                }
            },
            (DynType::Str(a), DynType::Str(b)) => Ok(DynType::Str(a.concat(b.as_str()))),
            (DynType::F64(_), DynType::F64(_)) => Err(ValueError::FloatArithmetic),
            _ => Err(ValueError::TypeMismatch),
        }
    }

    /// The integer held, or `WrongKind` for a value of another kind.
    pub fn into_i64(self) -> (r: Result<i64, ValueError>)
        ensures
            match self {
                DynType::I64(v) => r == Ok::<i64, ValueError>(v),
                _ => r == Err::<i64, ValueError>(ValueError::WrongKind),
            },
    {
        match self {
            DynType::I64(v) => Ok(v),
            _ => Err(ValueError::WrongKind),
        }
    }

    /// The decimal text of the float held, or `WrongKind` for a value of
    /// another kind.
    pub fn into_f64(self) -> (r: Result<String, ValueError>)
        ensures
            match self {
                DynType::F64(s) => r == Ok::<String, ValueError>(s),
                _ => r == Err::<String, ValueError>(ValueError::WrongKind),
            },
    {
        match self {
            DynType::F64(s) => Ok(s),
            _ => Err(ValueError::WrongKind),
        }
    }

    /// The text held, or `WrongKind` for a value of another kind.
    pub fn into_str(self) -> (r: Result<String, ValueError>)
        ensures
            match self {
                DynType::Str(s) => r == Ok::<String, ValueError>(s),
                _ => r == Err::<String, ValueError>(ValueError::WrongKind),
            },
    {
        match self {
            DynType::Str(s) => Ok(s),
            _ => Err(ValueError::WrongKind),
        }
    }
}

} // verus!
