use vstd::prelude::*;
use crate::value::DynType;

verus! {

/// A parsed call: a function name and its parameters in source order.
#[derive(Debug)]
pub struct DynFunction {
    pub name: String,
    pub params: Vec<DynParam>,
}

/// One argument slot of a call: a nested call or a literal value.
#[derive(Debug)]
pub enum DynParam {
    Function(DynFunction),
    Value(DynType),
}

/// The literal values among `ps`, in order; nested calls are left out.
pub open spec fn literal_values(ps: Seq<DynParam>) -> Seq<DynType>
    decreases ps.len(),
{
    if ps.len() == 0 {
        Seq::empty()
    } else {
        let rest = literal_values(ps.drop_last());
        match ps.last() {
            DynParam::Value(v) => rest.push(v),
            DynParam::Function(_) => rest,
        }
    }
}

impl DynFunction {
    /// The literal parameters of this call, in order, leaving out nested calls.
    pub fn get_all_value(self) -> (r: Vec<DynType>)
        ensures
            r@ == literal_values(self.params@),
    {
        let mut out: Vec<DynType> = Vec::new();
        let mut i: usize = 0;
        while i < self.params.len()
            invariant
                i <= self.params@.len(),
                out@ == literal_values(self.params@.subrange(0, i as int)),
            decreases self.params@.len() - i,
        {
            match &self.params[i] {
                DynParam::Value(v) => {
                    out.push(v.duplicate());
                },
                DynParam::Function(_) => {},
            }
            assert(self.params@.subrange(0, i + 1).drop_last() == self.params@.subrange(0, i as int));
            i = i + 1;
        }
        assert(self.params@.subrange(0, i as int) == self.params@);
        out
    }
}

impl DynParam {
    /// The value of a literal parameter; `None` for a nested call.
    pub fn extract_value(self) -> (r: Option<DynType>)
        ensures
            match self {
                DynParam::Value(v) => r == Some(v),
                DynParam::Function(_) => r is None,
            },
    {
        match self {
            DynParam::Value(v) => Some(v),
            DynParam::Function(_) => None,
        }
    }
}

} // verus!
