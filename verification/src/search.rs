//! Link detection: whether a candidate file is a zip-format container
//! holding an entry under the external-links name prefix.

use vstd::prelude::*;

use crate::bytes::is_match_at;
use crate::bytes::matches_at;
use crate::bytes::starts_with_bytes;
use crate::zipio::zip_entries;
use crate::zipio::zip_name_at;
use crate::zipio::zip_num_entries;
use vstd::string::StringSliceAdditionalSpecFns;

verus! {

/// The bytes of `xl/externalLinks`, the entry-name prefix that defines a
/// match.
pub open spec fn links_prefix() -> Seq<u8> {
    seq![120u8, 108, 47, 101, 120, 116, 101, 114, 110, 97, 108, 76, 105, 110, 107, 115]
}

/// The bytes of `xl/externalLinks`, as a vector.
pub fn links_prefix_vec() -> (v: Vec<u8>)
    ensures
        v@ == links_prefix(),
{
    let mut v: Vec<u8> = Vec::new();
    v.push(120);
    v.push(108);
    v.push(47);
    v.push(101);
    v.push(120);
    v.push(116);
    v.push(101);
    v.push(114);
    v.push(110);
    v.push(97);
    v.push(108);
    v.push(76);
    v.push(105);
    v.push(110);
    v.push(107);
    v.push(115);
    proof {
        assert(v@ =~= links_prefix());
    }
    v
}

/// Some entry's name starts with the external-links prefix.
pub open spec fn has_links_entry(es: Seq<(Seq<u8>, Seq<u8>)>) -> bool {
    exists|i: int| 0 <= i < es.len() && is_match_at(#[trigger] es[i].0, links_prefix(), 0)
}

/// The bytes parse as a container and some entry carries the prefix.
pub open spec fn detect_spec(b: Seq<u8>) -> bool {
    match zip_entries(b) {
        Some(es) => has_links_entry(es),
        None => false,
    }
}

/// Read-only detection on a candidate's bytes: true exactly when they parse
/// as a zip-format container holding an entry under the external-links
/// prefix.  Bytes that do not parse are no match, never an error.
pub fn check_file(b: &Vec<u8>) -> (r: bool)
    ensures
        r == detect_spec(b@),
{
    let n = match zip_num_entries(b) {
        Some(n) => n,
        None => {
            return false;
        },
    };
    let prefix = links_prefix_vec();
    let mut i: usize = 0;
    while i < n
        invariant
            zip_entries(b@) is Some,
            n == zip_entries(b@)->Some_0.len(),
            i <= n,
            prefix@ == links_prefix(),
            forall|j: int|
                0 <= j < i ==> !is_match_at(#[trigger] zip_entries(b@)->Some_0[j].0, links_prefix(), 0),
        decreases n - i,
    {
        let name = zip_name_at(b, i);
        if starts_with_bytes(name.as_slice(), prefix.as_slice()) {
            proof {
                assert(is_match_at(zip_entries(b@)->Some_0[i as int].0, links_prefix(), 0));
            }
            return true;
        }
        i += 1;
    }
    false
}

/// The bytes of `.xlsx`.
pub open spec fn xlsx_suffix() -> Seq<u8> {
    seq![46u8, 120, 108, 115, 120]
}

/// The path names a file with the target archive extension: it ends with
/// `.xlsx`, and the dot does not begin the file name (a separator or the
/// start of the path must not stand right before it).
pub open spec fn xlsx_path_spec(p: Seq<u8>) -> bool {
    &&& p.len() >= 6
    &&& is_match_at(p, xlsx_suffix(), p.len() - 5)
    &&& p[p.len() - 6] != 47
    &&& p[p.len() - 6] != 92
}

/// Whether a candidate path carries the target archive extension; checked
/// before any open, so that non-archives cost nothing.
pub fn is_xlsx_path(path: &str) -> (r: bool)
    ensures
        r == xlsx_path_spec(path.spec_bytes()),
{
    let b = path.as_bytes();
    let n = b.len();
    if n < 6 {
        return false;
    }
    let mut suf: Vec<u8> = Vec::new();
    suf.push(46);
    suf.push(120);
    suf.push(108);
    suf.push(115);
    suf.push(120);
    proof {
        assert(suf@ =~= xlsx_suffix());
    }
    if !matches_at(b, n - 5, suf.as_slice()) {
        return false;
    }
    b[n - 6] != 47 && b[n - 6] != 92
}

} // verus!
