//! The descriptor cleaning transform.
//!
//! The workbook descriptor entry is edited by two independent, leftmost-first
//! textual removals over its raw bytes:
//! - every declared-name element — the bytes from `<definedName` through the
//!   first following `>`, a body running to the first `<` after that, which
//!   must begin `</definedName>` — whose body holds a bracketed
//!   external-workbook index `[1]` .. `[9]`;
//! - the external-reference block: the shortest span from `<externalReferences>`
//!   to the next `</externalReferences>`.
//!
//! The transform is deliberately textual, not a structural parse of the
//! descriptor.

use vstd::prelude::*;

use crate::bytes::find_match;
use crate::bytes::is_match_at;
use crate::bytes::lemma_find_match_spec;
use crate::bytes::matches_at;
use crate::bytes::starts_with_bytes;

verus! {

/// The bytes of `<definedName`.
pub open spec fn dn_open() -> Seq<u8> {
    seq![60u8, 100, 101, 102, 105, 110, 101, 100, 78, 97, 109, 101]
}

/// The bytes of `</definedName>`.
pub open spec fn dn_close() -> Seq<u8> {
    seq![60u8, 47, 100, 101, 102, 105, 110, 101, 100, 78, 97, 109, 101, 62]
}

/// The bytes of `<externalReferences>`.
pub open spec fn ext_open() -> Seq<u8> {
    seq![60u8, 101, 120, 116, 101, 114, 110, 97, 108, 82, 101, 102, 101, 114, 101, 110, 99, 101, 115, 62]
}

/// The bytes of `</externalReferences>`.
pub open spec fn ext_close() -> Seq<u8> {
    seq![60u8, 47, 101, 120, 116, 101, 114, 110, 97, 108, 82, 101, 102, 101, 114, 101, 110, 99, 101, 115, 62]
}

/// The bytes of `<definedName`, as a vector.
pub fn dn_open_vec() -> (v: Vec<u8>)
    ensures
        v@ == dn_open(),
{
    let mut v: Vec<u8> = Vec::new();
    v.push(60);
    v.push(100);
    v.push(101);
    v.push(102);
    v.push(105);
    v.push(110);
    v.push(101);
    v.push(100);
    v.push(78);
    v.push(97);
    v.push(109);
    v.push(101);
    proof {
        assert(v@ =~= dn_open());
    }
    v
}

/// The bytes of `</definedName>`, as a vector.
pub fn dn_close_vec() -> (v: Vec<u8>)
    ensures
        v@ == dn_close(),
{
    let mut v: Vec<u8> = Vec::new();
    v.push(60);
    v.push(47);
    v.push(100);
    v.push(101);
    v.push(102);
    v.push(105);
    v.push(110);
    v.push(101);
    v.push(100);
    v.push(78);
    v.push(97);
    v.push(109);
    v.push(101);
    v.push(62);
    proof {
        assert(v@ =~= dn_close());
    }
    v
}

/// The bytes of `<externalReferences>`, as a vector.
pub fn ext_open_vec() -> (v: Vec<u8>)
    ensures
        v@ == ext_open(),
{
    let mut v: Vec<u8> = Vec::new();
    v.push(60);
    v.push(101);
    v.push(120);
    v.push(116);
    v.push(101);
    v.push(114);
    v.push(110);
    v.push(97);
    v.push(108);
    v.push(82);
    v.push(101);
    v.push(102);
    v.push(101);
    v.push(114);
    v.push(101);
    v.push(110);
    v.push(99);
    v.push(101);
    v.push(115);
    v.push(62);
    proof {
        assert(v@ =~= ext_open());
    }
    v
}

/// The bytes of `</externalReferences>`, as a vector.
pub fn ext_close_vec() -> (v: Vec<u8>)
    ensures
        v@ == ext_close(),
{
    let mut v: Vec<u8> = Vec::new();
    v.push(60);
    v.push(47);
    v.push(101);
    v.push(120);
    v.push(116);
    v.push(101);
    v.push(114);
    v.push(110);
    v.push(97);
    v.push(108);
    v.push(82);
    v.push(101);
    v.push(102);
    v.push(101);
    v.push(114);
    v.push(101);
    v.push(110);
    v.push(99);
    v.push(101);
    v.push(115);
    v.push(62);
    proof {
        assert(v@ =~= ext_close());
    }
    v
}

/// Index of the first occurrence of byte `b` at or after `from`, if any.
pub open spec fn find_byte(s: Seq<u8>, b: u8, from: int) -> Option<int>
    decreases s.len() - from when 0 <= from <= s.len()
{
    if from >= s.len() {
        None
    } else if s[from] == b {
        Some(from)
    } else {
        find_byte(s, b, from + 1)
    }
}

/// What `find_byte` returns: the first occurrence, or none anywhere after `from`.
pub proof fn lemma_find_byte_spec(s: Seq<u8>, b: u8, from: int)
    requires
        0 <= from <= s.len(),
    ensures
        match find_byte(s, b, from) {
            Some(i) => from <= i < s.len() && s[i] == b && forall|j: int|
                from <= j < i ==> s[j] != b,
            None => forall|j: int| from <= j < s.len() ==> s[j] != b,
        },
    decreases s.len() - from,
{
    if from >= s.len() {
    } else if s[from] == b {
    } else {
        lemma_find_byte_spec(s, b, from + 1);
    }
}

/// First occurrence of byte `b` in `s` at or after `from`.
pub fn find_byte_from(s: &[u8], from: usize, b: u8) -> (r: Option<usize>)
    requires
        from <= s.len(),
    ensures
        match r {
            Some(i) => find_byte(s@, b, from as int) == Some(i as int),
            None => find_byte(s@, b, from as int) is None,
        },
{
    let mut i: usize = from;
    while i < s.len()
        invariant
            from <= i <= s.len(),
            find_byte(s@, b, from as int) == find_byte(s@, b, i as int),
        decreases s.len() - i,
    {
        if s[i] == b {
            return Some(i);
        }
        i += 1;
    }
    None
}

/// A bracketed external-workbook index `[1]` .. `[9]` starts at `m`.
pub open spec fn bracket_at(s: Seq<u8>, m: int) -> bool {
    0 <= m && m + 3 <= s.len() && s[m] == 91 && 49 <= s[m + 1] <= 57 && s[m + 2] == 93
}

/// Some bracketed index lies entirely within `s[from .. to]`.
pub open spec fn has_bracket(s: Seq<u8>, from: int, to: int) -> bool {
    exists|m: int| from <= m && m + 3 <= to && bracket_at(s, m)
}

/// Whether a bracketed index lies entirely within `s[from .. to]`.
pub fn has_bracket_exec(s: &[u8], from: usize, to: usize) -> (r: bool)
    requires
        from <= to <= s.len(),
    ensures
        r == has_bracket(s@, from as int, to as int),
{
    let mut m: usize = from;
    while to - m >= 3
        invariant
            from <= m <= to,
            to <= s.len(),
            forall|j: int| from <= j && j + 3 <= to && j < m ==> !bracket_at(s@, j),
        decreases to - m,
    {
        if s[m] == 91 && 49 <= s[m + 1] && s[m + 1] <= 57 && s[m + 2] == 93 {
            proof {
                assert(bracket_at(s@, m as int));
            }
            return true;
        }
        m += 1;
    }
    false
}

/// Length of the declared-name removal pattern when it matches at the start
/// of `s`: the open tag runs to the first `>`, the body to the first `<`
/// after it, which must begin `</definedName>`, and the body must hold a
/// bracketed index.
pub open spec fn dn_match_len(s: Seq<u8>) -> Option<int> {
    if !is_match_at(s, dn_open(), 0) {
        None
    } else {
        match find_byte(s, 62, 12) {
            None => None,
            Some(j) => match find_byte(s, 60, j + 1) {
                None => None,
                Some(k) => if is_match_at(s, dn_close(), k) && has_bracket(s, j + 1, k) {
                    Some(k + 14)
                } else {
                    None
                },
            },
        }
    }
}

/// Length of the external-reference block when it starts `s`: the shortest
/// span from `<externalReferences>` to the next `</externalReferences>`.
pub open spec fn ext_match_len(s: Seq<u8>) -> Option<int> {
    if !is_match_at(s, ext_open(), 0) {
        None
    } else {
        match find_match(s, ext_close(), 20) {
            None => None,
            Some(c) => Some(c + 21),
        }
    }
}

/// A declared-name match never runs past the end of `s` and is never empty.
pub proof fn lemma_dn_match_len_bounds(s: Seq<u8>)
    ensures
        dn_match_len(s) matches Some(l) ==> 27 <= l <= s.len(),
{
    if dn_match_len(s) is Some {
        lemma_find_byte_spec(s, 62, 12);
        let j = find_byte(s, 62, 12)->Some_0;
        lemma_find_byte_spec(s, 60, j + 1);
    }
}

/// An external-reference match never runs past the end of `s` and is never empty.
pub proof fn lemma_ext_match_len_bounds(s: Seq<u8>)
    ensures
        ext_match_len(s) matches Some(l) ==> 41 <= l <= s.len(),
{
    if ext_match_len(s) is Some {
        lemma_find_match_spec(s, ext_close(), 20);
    }
}

/// Declared-name match length at the start of `s`, if any.
pub fn dn_match_here(s: &[u8]) -> (r: Option<usize>)
    ensures
        match r {
            Some(l) => dn_match_len(s@) == Some(l as int),
            None => dn_match_len(s@) is None,
        },
{
    // Binding the length keeps every later index visibly within `usize`.
    let n: usize = s.len();
    let open_pat = dn_open_vec();
    if !starts_with_bytes(s, open_pat.as_slice()) {
        return None;
    }
    proof {
        assert(s@.len() == n);
    }
    let j = match find_byte_from(s, 12, 62) {
        Some(j) => j,
        None => {
            return None;
        },
    };
    proof {
        lemma_find_byte_spec(s@, 62, 12);
    }
    let k = match find_byte_from(s, j + 1, 60) {
        Some(k) => k,
        None => {
            return None;
        },
    };
    proof {
        lemma_find_byte_spec(s@, 60, j + 1);
    }
    let close_pat = dn_close_vec();
    if !matches_at(s, k, close_pat.as_slice()) {
        return None;
    }
    if !has_bracket_exec(s, j + 1, k) {
        return None;
    }
    Some(k + 14)
}

/// External-reference match length at the start of `s`, if any.
pub fn ext_match_here(s: &[u8]) -> (r: Option<usize>)
    ensures
        match r {
            Some(l) => ext_match_len(s@) == Some(l as int),
            None => ext_match_len(s@) is None,
        },
{
    // Binding the length keeps every later index visibly within `usize`.
    let n: usize = s.len();
    let open_pat = ext_open_vec();
    if !starts_with_bytes(s, open_pat.as_slice()) {
        return None;
    }
    proof {
        assert(s@.len() == n);
    }
    let close_pat = ext_close_vec();
    let c = match crate::bytes::find_from(s, 20, close_pat.as_slice()) {
        Some(c) => c,
        None => {
            return None;
        },
    };
    proof {
        lemma_find_match_spec(s@, ext_close(), 20);
    }
    Some(c + 21)
}

/// One leftmost-first scan removing every declared-name match.
pub open spec fn strip_dn(s: Seq<u8>) -> Seq<u8>
    decreases s.len()
{
    if s.len() == 0 {
        s
    } else {
        match dn_match_len(s) {
            Some(l) => if 1 <= l <= s.len() {
                strip_dn(s.skip(l))
            } else {
                s
            },
            None => seq![s[0]] + strip_dn(s.skip(1)),
        }
    }
}

/// One leftmost-first scan removing every external-reference block.
pub open spec fn strip_ext(s: Seq<u8>) -> Seq<u8>
    decreases s.len()
{
    if s.len() == 0 {
        s
    } else {
        match ext_match_len(s) {
            Some(l) => if 1 <= l <= s.len() {
                strip_ext(s.skip(l))
            } else {
                s
            },
            None => seq![s[0]] + strip_ext(s.skip(1)),
        }
    }
}

/// The whole cleaning transform: declared-name removal, then block removal.
pub open spec fn clean_spec(s: Seq<u8>) -> Seq<u8> {
    strip_ext(strip_dn(s))
}

/// Removes every declared-name match from `s`, leftmost first.
pub fn strip_dn_exec(s: &[u8]) -> (r: Vec<u8>)
    ensures
        r@ == strip_dn(s@),
{
    let mut out: Vec<u8> = Vec::new();
    let mut i: usize = 0;
    proof {
        assert(s@.skip(0) =~= s@);
        assert(Seq::<u8>::empty() + strip_dn(s@) =~= strip_dn(s@));
    }
    while i < s.len()
        invariant
            i <= s.len(),
            strip_dn(s@) == out@ + strip_dn(s@.skip(i as int)),
        decreases s.len() - i,
    {
        let ghost out_pre = out@;
        let suffix = vstd::slice::slice_subrange(s, i, s.len());
        proof {
            assert(suffix@ =~= s@.skip(i as int));
        }
        match dn_match_here(suffix) {
            Some(l) => {
                proof {
                    lemma_dn_match_len_bounds(s@.skip(i as int));
                    assert(s@.skip(i as int).skip(l as int) =~= s@.skip(i + l));
                }
                i += l;
            },
            None => {
                out.push(s[i]);
                proof {
                    assert(s@.skip(i as int).skip(1) =~= s@.skip(i + 1));
                    assert(out@ + strip_dn(s@.skip(i + 1)) =~= out_pre + strip_dn(
                        s@.skip(i as int),
                    ));
                }
                i += 1;
            },
        }
    }
    proof {
        assert(s@.skip(s@.len() as int) =~= Seq::<u8>::empty());
        assert(out@ + Seq::<u8>::empty() =~= out@);
    }
    out
}

/// Removes every external-reference block from `s`, leftmost first.
pub fn strip_ext_exec(s: &[u8]) -> (r: Vec<u8>)
    ensures
        r@ == strip_ext(s@),
{
    let mut out: Vec<u8> = Vec::new();
    let mut i: usize = 0;
    proof {
        assert(s@.skip(0) =~= s@);
        assert(Seq::<u8>::empty() + strip_ext(s@) =~= strip_ext(s@));
    }
    while i < s.len()
        invariant
            i <= s.len(),
            strip_ext(s@) == out@ + strip_ext(s@.skip(i as int)),
        decreases s.len() - i,
    {
        let ghost out_pre = out@;
        let suffix = vstd::slice::slice_subrange(s, i, s.len());
        proof {
            assert(suffix@ =~= s@.skip(i as int));
        }
        match ext_match_here(suffix) {
            Some(l) => {
                proof {
                    lemma_ext_match_len_bounds(s@.skip(i as int));
                    assert(s@.skip(i as int).skip(l as int) =~= s@.skip(i + l));
                }
                i += l;
            },
            None => {
                out.push(s[i]);
                proof {
                    assert(s@.skip(i as int).skip(1) =~= s@.skip(i + 1));
                    assert(out@ + strip_ext(s@.skip(i + 1)) =~= out_pre + strip_ext(
                        s@.skip(i as int),
                    ));
                }
                i += 1;
            },
        }
    }
    proof {
        assert(s@.skip(s@.len() as int) =~= Seq::<u8>::empty());
        assert(out@ + Seq::<u8>::empty() =~= out@);
    }
    out
}

/// Cleans the workbook descriptor: removes every declared-name element whose
/// body holds a bracketed external-workbook index, then every
/// external-reference block. All other bytes pass through unchanged.
pub fn clean_workbook_xml(buf: &[u8]) -> (r: Vec<u8>)
    ensures
        r@ == clean_spec(buf@),
{
    let pass = strip_dn_exec(buf);
    strip_ext_exec(pass.as_slice())
}

/// No removal pattern starts anywhere in `s`.
pub open spec fn fully_cleaned(s: Seq<u8>) -> bool {
    forall|i: int|
        0 <= i <= s.len() ==> dn_match_len(#[trigger] s.skip(i)) is None && ext_match_len(
            s.skip(i),
        ) is None
}

/// Whether any removal pattern starts anywhere in `s`.
pub fn is_fully_cleaned(s: &[u8]) -> (r: bool)
    ensures
        r == fully_cleaned(s@),
{
    let mut i: usize = 0;
    while i < s.len()
        invariant
            i <= s.len(),
            forall|j: int|
                0 <= j < i ==> dn_match_len(#[trigger] s@.skip(j)) is None && ext_match_len(
                    s@.skip(j),
                ) is None,
        decreases s.len() - i,
    {
        let suffix = vstd::slice::slice_subrange(s, i, s.len());
        proof {
            assert(suffix@ =~= s@.skip(i as int));
        }
        if dn_match_here(suffix).is_some() {
            return false;
        }
        if ext_match_here(suffix).is_some() {
            return false;
        }
        i += 1;
    }
    proof {
        assert(s@.skip(s@.len() as int) =~= Seq::<u8>::empty());
        assert(dn_match_len(s@.skip(s@.len() as int)) is None);
        assert(ext_match_len(s@.skip(s@.len() as int)) is None);
    }
    true
}

/// A string in which no removal pattern occurs is left unchanged by the
/// declared-name scan.
pub proof fn lemma_strip_dn_identity(s: Seq<u8>)
    requires
        forall|i: int| 0 <= i <= s.len() ==> dn_match_len(#[trigger] s.skip(i)) is None,
    ensures
        strip_dn(s) == s,
    decreases s.len(),
{
    if s.len() == 0 {
    } else {
        assert(s.skip(0) =~= s);
        assert(dn_match_len(s) is None);
        assert forall|i: int| 0 <= i <= s.skip(1).len() implies dn_match_len(
            #[trigger] s.skip(1).skip(i),
        ) is None by {
            assert(s.skip(1).skip(i) =~= s.skip(i + 1));
        }
        lemma_strip_dn_identity(s.skip(1));
        assert(seq![s[0]] + s.skip(1) =~= s);
    }
}

/// A string in which no removal pattern occurs is left unchanged by the
/// external-reference scan.
pub proof fn lemma_strip_ext_identity(s: Seq<u8>)
    requires
        forall|i: int| 0 <= i <= s.len() ==> ext_match_len(#[trigger] s.skip(i)) is None,
    ensures
        strip_ext(s) == s,
    decreases s.len(),
{
    if s.len() == 0 {
    } else {
        assert(s.skip(0) =~= s);
        assert(ext_match_len(s) is None);
        assert forall|i: int| 0 <= i <= s.skip(1).len() implies ext_match_len(
            #[trigger] s.skip(1).skip(i),
        ) is None by {
            assert(s.skip(1).skip(i) =~= s.skip(i + 1));
        }
        lemma_strip_ext_identity(s.skip(1));
        assert(seq![s[0]] + s.skip(1) =~= s);
    }
}

/// The cleaning transform is idempotent: on any input whose cleaned form
/// holds no further removal pattern, cleaning a second time changes nothing.
/// Removing a span can splice its neighbours into a fresh pattern, so the
/// premise does not hold of every byte string; it holds whenever the first
/// pass leaves no pattern behind, which `is_fully_cleaned` decides.
pub proof fn lemma_clean_idempotent(s: Seq<u8>)
    requires
        fully_cleaned(clean_spec(s)),
    ensures
        clean_spec(clean_spec(s)) == clean_spec(s),
{
    lemma_strip_dn_identity(clean_spec(s));
    lemma_strip_ext_identity(clean_spec(s));
}

/// The declared-name scan never lengthens the string.
pub proof fn lemma_strip_dn_len(s: Seq<u8>)
    ensures
        strip_dn(s).len() <= s.len(),
    decreases s.len(),
{
    if s.len() == 0 {
    } else {
        match dn_match_len(s) {
            Some(l) => {
                lemma_dn_match_len_bounds(s);
                lemma_strip_dn_len(s.skip(l));
            },
            None => {
                lemma_strip_dn_len(s.skip(1));
            },
        }
    }
}

/// The external-reference scan never lengthens the string.
pub proof fn lemma_strip_ext_len(s: Seq<u8>)
    ensures
        strip_ext(s).len() <= s.len(),
    decreases s.len(),
{
    if s.len() == 0 {
    } else {
        match ext_match_len(s) {
            Some(l) => {
                lemma_ext_match_len_bounds(s);
                lemma_strip_ext_len(s.skip(l));
            },
            None => {
                lemma_strip_ext_len(s.skip(1));
            },
        }
    }
}

/// A string in which a declared-name match survives is strictly shortened
/// by the declared-name scan.
pub proof fn lemma_strip_dn_shrinks(s: Seq<u8>)
    requires
        exists|i: int| 0 <= i <= s.len() && dn_match_len(#[trigger] s.skip(i)) is Some,
    ensures
        strip_dn(s).len() < s.len(),
    decreases s.len(),
{
    let i = choose|i: int| 0 <= i <= s.len() && dn_match_len(#[trigger] s.skip(i)) is Some;
    lemma_dn_match_len_bounds(s.skip(i));
    match dn_match_len(s) {
        Some(l) => {
            lemma_dn_match_len_bounds(s);
            lemma_strip_dn_len(s.skip(l));
        },
        None => {
            assert(s.skip(0) =~= s);
            assert(s.skip(1).skip(i - 1) =~= s.skip(i));
            lemma_strip_dn_shrinks(s.skip(1));
        },
    }
}

/// A string in which an external-reference match survives is strictly
/// shortened by the external-reference scan.
pub proof fn lemma_strip_ext_shrinks(s: Seq<u8>)
    requires
        exists|i: int| 0 <= i <= s.len() && ext_match_len(#[trigger] s.skip(i)) is Some,
    ensures
        strip_ext(s).len() < s.len(),
    decreases s.len(),
{
    let i = choose|i: int| 0 <= i <= s.len() && ext_match_len(#[trigger] s.skip(i)) is Some;
    lemma_ext_match_len_bounds(s.skip(i));
    match ext_match_len(s) {
        Some(l) => {
            lemma_ext_match_len_bounds(s);
            lemma_strip_ext_len(s.skip(l));
        },
        None => {
            assert(s.skip(0) =~= s);
            assert(s.skip(1).skip(i - 1) =~= s.skip(i));
            lemma_strip_ext_shrinks(s.skip(1));
        },
    }
}

/// The idempotence premise is exact: whenever a removal pattern survives in
/// a string, one cleaning pass strictly shortens it, so cleaning changes it.
/// Together with `lemma_clean_idempotent`, a second pass is the identity on
/// a first pass's output exactly when that output holds no pattern.
pub proof fn lemma_clean_shrinks_when_pattern_remains(s: Seq<u8>)
    requires
        !fully_cleaned(s),
    ensures
        clean_spec(s).len() < s.len(),
        clean_spec(s) != s,
{
    if exists|j: int| 0 <= j <= s.len() && dn_match_len(#[trigger] s.skip(j)) is Some {
        lemma_strip_dn_shrinks(s);
        lemma_strip_ext_len(strip_dn(s));
    } else {
        assert forall|j: int| 0 <= j <= s.len() implies dn_match_len(
            #[trigger] s.skip(j),
        ) is None by {
            if dn_match_len(s.skip(j)) is Some {
                assert(0 <= j <= s.len() && dn_match_len(s.skip(j)) is Some);
            }
        }
        lemma_strip_dn_identity(s);
        let i = choose|i: int|
            0 <= i <= s.len() && !(dn_match_len(#[trigger] s.skip(i)) is None && ext_match_len(
                s.skip(i),
            ) is None);
        assert(ext_match_len(s.skip(i)) is Some);
        lemma_strip_ext_shrinks(s);
    }
}

} // verus!
