//! Query parameters of a request.
use std::collections::HashMap;
use vstd::prelude::*;

verus! {

/// The value of the parameter `name`, where the request has it.
pub open spec fn param_of(params: Map<String, String>, name: Seq<char>) -> Option<Seq<char>> {
    if exists|k: String| #[trigger] params.contains_key(k) && k@ == name {
        Some(params[choose|k: String| #[trigger] params.contains_key(k) && k@ == name]@)
    } else {
        None
    }
}

/// `HashMap::get` returns a reference to the value of the key, where the map
/// holds the key. Claimed, of keys that are compared by their characters:
/// there is such a key and every key with these characters has this value, or
/// no key has these characters.
#[verifier::external_body]
fn get_param<'a>(params: &'a HashMap<String, String>, name: &str) -> (r: Option<&'a String>)
    ensures
        match r {
            Some(v) => (exists|k: String| #[trigger] params@.contains_key(k) && k@ == name@)
                && forall|k: String|
                #[trigger] params@.contains_key(k) && k@ == name@ ==> params@[k]@ == v@,
            None => !exists|k: String| #[trigger] params@.contains_key(k) && k@ == name@,
        },
{
    params.get(name)
}

/// The value of the parameter `name`.
pub fn param<'a>(params: &'a HashMap<String, String>, name: &str) -> (r: Option<&'a String>)
    ensures
        crate::text::opt_ref_text(r) == param_of(params@, name@),
{
    get_param(params, name)
}

/// A parameter is found by its name: with the value of every key that reads
/// so, and not at all where no key does.
pub proof fn parameters_are_found_by_name(params: Map<String, String>, k: String, name: Seq<char>)
    requires
        forall|j: String| #[trigger]
            params.contains_key(j) && j@ == k@ ==> params[j]@ == params[k]@,
    ensures
        params.contains_key(k) ==> param_of(params, k@) == Some(params[k]@),
        (forall|j: String| #[trigger] params.contains_key(j) ==> j@ != name) ==> param_of(
            params,
            name,
        ) is None,
{
}

} // verus!
