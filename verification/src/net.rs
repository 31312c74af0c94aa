//! Address helpers shared by every listener.

use vstd::prelude::*;

use crate::text;

verus! {

/// The normal form of a bind address: trimmed, and the `":PORT"` shorthand
/// expanded to `"0.0.0.0:PORT"` so socket APIs accept it.
pub open spec fn spec_normalize_bind_addr(s: Seq<char>) -> Seq<char> {
    let t = text::spec_trim(s);
    if t.len() > 0 && t[0] == ':' {
        "0.0.0.0"@ + t
    } else {
        t
    }
}

/// Normalizes a bind/listen address.
pub fn normalize_bind_addr(addr: &str) -> (r: String)
    ensures
        r@ == spec_normalize_bind_addr(addr@),
{
    let t = text::trim_str(addr);
    if t.as_str().unicode_len() > 0 && t.as_str().get_char(0) == ':' {
        let mut out = String::from_str("0.0.0.0");
        out.append(t.as_str());
        out
    } else {
        t
    }
}

} // verus!
