//! Results, by what they stand for.
use vstd::prelude::*;

verus! {

/// What a result stands for.
pub open spec fn seen<T: DeepView, E: DeepView>(r: Result<T, E>) -> Result<
    <T as DeepView>::V,
    <E as DeepView>::V,
> {
    match r {
        Ok(value) => Ok(value.deep_view()),
        Err(error) => Err(error.deep_view()),
    }
}

} // verus!
