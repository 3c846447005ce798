//! The absolute short link that a caller shows for a code.

use vstd::prelude::*;
use vstd::string::StringExecFns;

verus! {

/// The link `http://<host>/<code>`.
pub open spec fn link_of(host: Seq<char>, code: Seq<char>) -> Seq<char> {
    seq!['h', 't', 't', 'p', ':', '/', '/'] + host + seq!['/'] + code
}

/// Builds the absolute short link for `code` served from `host`.
pub fn short_link(host: &str, code: &str) -> (r: String)
    ensures
        r@ == link_of(host@, code@),
{
    proof {
        reveal_strlit("http://");
        reveal_strlit("/");
    }
    let mut r = String::from_str("http://");
    r.append(host);
    r.append("/");
    r.append(code);
    assert(r@ =~= link_of(host@, code@));
    r
}

/// Turns listed (short code, long URL) pairs into (short link, long URL)
/// pairs for `host`, one for one and in the same order.
pub fn links_of(host: &str, pairs: &Vec<(String, String)>) -> (r: Vec<(String, String)>)
    ensures
        r@.len() == pairs@.len(),
        forall|i: int|
            0 <= i < r@.len() ==> (#[trigger] r@[i]).0@ == link_of(host@, pairs@[i].0@) && r@[i].1@
                == pairs@[i].1@,
{
    let mut r: Vec<(String, String)> = Vec::new();
    let mut i: usize = 0;
    while i < pairs.len()
        invariant
            i <= pairs@.len(),
            r@.len() == i,
            forall|j: int|
                0 <= j < i ==> (#[trigger] r@[j]).0@ == link_of(host@, pairs@[j].0@) && r@[j].1@
                    == pairs@[j].1@,
        decreases pairs@.len() - i,
    {
        let p = &pairs[i];
        r.push((short_link(host, p.0.as_str()), p.1.clone()));
        i = i + 1;
    }
    r
}

} // verus!
