use vstd::prelude::*;
use vstd::string::StringExecFns;

verus! {

/// The plain-text greeting for `name`.
pub fn greeting(name: &str) -> (r: String)
    ensures
        r@ == "Hello "@ + name@ + "!"@,
{
    let mut s = "Hello ".to_owned();
    s.append(name);
    s.append("!");
    s
}

} // verus!
