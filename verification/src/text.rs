use vstd::prelude::*;
use vstd::string::StringExecFns;

verus! {

/// The concatenation of `a` and `b`.
pub fn const_concat(a: &str, b: &str) -> (r: String)
    ensures
        r@ == a@ + b@,
{
    String::from_str(a).concat(b)
}

} // verus!
