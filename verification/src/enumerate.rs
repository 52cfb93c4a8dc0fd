//! The candidate filter that the directory walk applies, and the report of
//! matched paths.  The walk itself is I/O and lives outside the library;
//! every decision it takes per entry is made here.

use vstd::prelude::*;

use crate::bytes::contains_bytes;
use crate::bytes::contains_seq;

verus! {

/// What `str::to_lowercase` returns, as bytes: a function of the characters
/// alone.
pub uninterp spec fn lower_of(s: Seq<char>) -> Seq<u8>;

/// Relies on `str::to_lowercase` and `String::into_bytes`: the lowercase
/// form of `s`, which depends on the characters alone; an empty string
/// stays empty.
#[verifier::external_body]
fn lower_bytes(s: &str) -> (r: Vec<u8>)
    ensures
        r@ == lower_of(s@),
        s@.len() == 0 ==> r@.len() == 0,
{
    s.to_lowercase().into_bytes()
}

/// The default size cap: one gibibyte.
pub open spec fn default_size_cap() -> u64 {
    1073741824
}

/// The cap the enumerator applies: the supplied one, or the default.
pub fn effective_size_cap(size: Option<u64>) -> (r: u64)
    ensures
        r == match size {
            Some(c) => c,
            None => default_size_cap(),
        },
{
    match size {
        Some(c) => c,
        None => 1073741824,
    }
}

/// The filter's verdict over already-lowercased byte strings: the candidate
/// is kept exactly when its size lies under the cap, the exclusion pattern
/// (when supplied) does not occur in its path, and the inclusion pattern
/// (when supplied) does.  Exclusion always wins over inclusion.
pub open spec fn keep_spec(
    path_l: Seq<u8>,
    size: u64,
    cap: u64,
    inc: Option<Seq<u8>>,
    exc: Option<Seq<u8>>,
) -> bool {
    &&& size < cap
    &&& match exc {
        Some(e) => !contains_seq(path_l, e),
        None => true,
    }
    &&& match inc {
        Some(p) => contains_seq(path_l, p),
        None => true,
    }
}

/// The per-entry decision of the directory walk: whether a candidate of the
/// given path and size survives the size cap and the case-insensitive
/// substring filters.
pub fn keep_candidate(
    path: &str,
    size: u64,
    cap: u64,
    inclusion: Option<&str>,
    exclude: Option<&str>,
) -> (r: bool)
    ensures
        r == keep_spec(
            lower_of(path@),
            size,
            cap,
            match inclusion {
                Some(p) => Some(lower_of(p@)),
                None => None,
            },
            match exclude {
                Some(e) => Some(lower_of(e@)),
                None => None,
            },
        ),
{
    if size >= cap {
        return false;
    }
    let path_l = lower_bytes(path);
    if let Some(e) = exclude {
        let e_l = lower_bytes(e);
        if contains_bytes(path_l.as_slice(), e_l.as_slice()) {
            return false;
        }
    }
    if let Some(p) = inclusion {
        let p_l = lower_bytes(p);
        return contains_bytes(path_l.as_slice(), p_l.as_slice());
    }
    true
}

/// Law: the size-cap boundary is exclusive at the cap.  A candidate of
/// exactly the cap size is dropped whatever the patterns say; one a single
/// byte smaller is kept whenever the patterns allow it.
pub proof fn lemma_size_cap_boundary(
    path_l: Seq<u8>,
    cap: u64,
    inc: Option<Seq<u8>>,
    exc: Option<Seq<u8>>,
)
    requires
        cap >= 1,
    ensures
        !keep_spec(path_l, cap, cap, inc, exc),
        (match exc {
            Some(e) => !contains_seq(path_l, e),
            None => true,
        }) && (match inc {
            Some(p) => contains_seq(path_l, p),
            None => true,
        }) ==> keep_spec(path_l, (cap - 1) as u64, cap, inc, exc),
{
}

/// Law: with both patterns supplied, exclusion always wins.  A path holding
/// the exclusion substring is dropped even when it holds the inclusion one;
/// a path under the cap holding only the inclusion substring is kept; a
/// path without the inclusion substring is dropped.
pub proof fn lemma_exclude_wins(
    path_l: Seq<u8>,
    size: u64,
    cap: u64,
    inc: Seq<u8>,
    exc: Seq<u8>,
)
    ensures
        contains_seq(path_l, exc) ==> !keep_spec(path_l, size, cap, Some(inc), Some(exc)),
        size < cap && !contains_seq(path_l, exc) && contains_seq(path_l, inc) ==> keep_spec(
            path_l,
            size,
            cap,
            Some(inc),
            Some(exc),
        ),
        !contains_seq(path_l, inc) ==> !keep_spec(path_l, size, cap, Some(inc), Some(exc)),
{
}

/// The bytes of the report header line, `path` and a newline.
pub open spec fn report_header() -> Seq<u8> {
    seq![112u8, 97, 116, 104, 10]
}

/// The report body: every path in order, each closed by a newline.
pub open spec fn report_lines(list: Seq<Seq<u8>>) -> Seq<u8>
    decreases list.len(),
{
    if list.len() == 0 {
        Seq::empty()
    } else {
        report_lines(list.drop_last()) + list.last() + seq![10u8]
    }
}

/// The whole report: the header line, then one matched path per line, with
/// no quoting or escaping.
pub open spec fn report_spec(list: Seq<Seq<u8>>) -> Seq<u8> {
    report_header() + report_lines(list)
}

/// Renders the report of matched paths as newline-delimited text.
pub fn render_report(list: &Vec<String>) -> (r: Vec<u8>)
    ensures
        r@ == report_spec(list@.map_values(|s: String| vstd::utf8::encode_utf8(s@))),
{
    let ghost v = list@.map_values(|s: String| vstd::utf8::encode_utf8(s@));
    let mut out: Vec<u8> = Vec::new();
    out.push(112);
    out.push(97);
    out.push(116);
    out.push(104);
    out.push(10);
    proof {
        assert(v.take(0) =~= Seq::<Seq<u8>>::empty());
        assert(out@ =~= report_spec(v.take(0)));
    }
    let mut i: usize = 0;
    while i < list.len()
        invariant
            i <= list.len(),
            v == list@.map_values(|s: String| vstd::utf8::encode_utf8(s@)),
            out@ == report_spec(v.take(i as int)),
        decreases list.len() - i,
    {
        let ghost pre = out@;
        let line = list[i].as_str().as_bytes();
        let mut k: usize = 0;
        while k < line.len()
            invariant
                k <= line.len(),
                out@ == pre + line@.take(k as int),
            decreases line.len() - k,
        {
            proof {
                line@.lemma_take_succ_push(k as int);
            }
            out.push(line[k]);
            k += 1;
        }
        out.push(10);
        proof {
            v.lemma_take_succ_push(i as int);
            assert(line@.take(line@.len() as int) =~= line@);
            assert(v.take(i + 1).drop_last() =~= v.take(i as int));
            assert(v.take(i + 1).last() == v[i as int]);
            assert(out@ =~= report_spec(v.take(i + 1)));
        }
        i += 1;
    }
    proof {
        assert(v.take(list@.len() as int) =~= v);
    }
    out
}

} // verus!
