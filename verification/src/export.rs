//! The plain-text log export route: a request path of exactly two segments,
//! `log` and a node name, names the node whose current log text is served;
//! any other path is not found.

use vstd::prelude::*;

verus! {

/// Reads the node name out of a request path split into segments: the
/// second segment exactly when there are two and the first is `log`,
/// nothing otherwise.
pub fn log_export_node(segments: &Vec<String>) -> (r: Option<&String>)
    ensures
        r is Some <==> (segments@.len() == 2 && segments@[0]@ == "log"@),
        r matches Some(name) ==> name@ == segments@[1]@,
{
    if segments.len() != 2 {
        return None;
    }
    let route = String::from_str("log");
    if segments[0].eq(&route) {
        Some(&segments[1])
    } else {
        None
    }
}

} // verus!
