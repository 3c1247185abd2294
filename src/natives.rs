use vstd::prelude::*;
use crate::value::DynType;
use crate::registry::DynamicFunctionTrait;

verus! {

/// The sum of the integer values in `args`; other values count for nothing.
pub open spec fn int_sum(args: Seq<DynType>) -> int
    decreases args.len(),
{
    if args.len() == 0 {
        0
    } else {
        int_sum(args.drop_last()) + match args.last() {
            DynType::I64(v) => v as int,
            _ => 0,
        }
    }
}

/// What `sum` gives for `args`.
pub open spec fn sum_result(args: Seq<DynType>) -> Option<DynType> {
    if i64::MIN <= int_sum(args) <= i64::MAX {
        Some(DynType::I64(int_sum(args) as i64))
    } else {
        None
    }
}

/// Adds up the integer arguments, skipping the others. Gives `None` where the
/// sum does not fit in an `i64`.
pub fn sum(args: &[DynType]) -> (r: Option<DynType>)
    ensures
        r == sum_result(args@),
{
    let mut total: i128 = 0;
    let mut i: usize = 0;
    while i < args.len()
        invariant
            i <= args@.len(),
            total == int_sum(args@.subrange(0, i as int)),
            -(i as int) * 0x8000_0000_0000_0000 <= total <= (i as int) * 0x8000_0000_0000_0000,
        decreases args@.len() - i,
    {
        assert(args@.subrange(0, i + 1).drop_last() == args@.subrange(0, i as int));
        match &args[i] {
            DynType::I64(v) => {
                total = total + *v as i128;
            },
            _ => {},
        }
        i = i + 1;
    }
    assert(args@.subrange(0, i as int) == args@);
    if total >= i64::MIN as i128 && total <= i64::MAX as i128 {
        Some(DynType::I64(total as i64))
    } else {
        None
    }
}

/// `sum` as a function that a registry can hold.
pub struct Sum;

impl DynamicFunctionTrait for Sum {
    open spec fn gives(&self, args: Seq<DynType>, r: Option<DynType>) -> bool {
        r == sum_result(args)
    }

    fn call(&self, args: &[DynType]) -> (r: Option<DynType>) {
        sum(args)
    }
}

} // verus!
