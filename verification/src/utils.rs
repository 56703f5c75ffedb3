//! What is read from the system's tools, made ready for use.

use vstd::prelude::*;
use vstd::string::*;

verus! {

/// The name of the user, from what `whoami` printed: its output without the
/// line break that ends it.
pub fn get_user(output: &str) -> (user: String)
    requires
        output@.len() > 0,
    ensures
        user@ == output@.drop_last(),
{
    let n = output.unicode_len();
    let name = output.substring_char(0, n - 1);
    assert(name@ =~= output@.drop_last());
    name.to_owned()
}

} // verus!
