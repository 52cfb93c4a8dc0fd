//! The archive rewrite: decoding a matched container into entries, dropping
//! the external-links sub-tree and every unsafely-named entry, cleaning the
//! descriptor, and repacking the survivors.

use vstd::prelude::*;

use crate::bytes::contains_bytes;
use crate::bytes::contains_seq;
use crate::bytes::eq_bytes;
use crate::clean::clean_spec;
use crate::clean::clean_workbook_xml;
use crate::clean::fully_cleaned;
use crate::clean::lemma_strip_dn_identity;
use crate::clean::lemma_strip_ext_identity;
use crate::zipio::deflate_fits;
use crate::zipio::entry_accepted;
use crate::zipio::entry_readable;
use crate::zipio::packer_entries;
use crate::zipio::packer_level;
use crate::zipio::zip_data_at;
use crate::zipio::zip_entries;
use crate::zipio::zip_name_at;
use crate::zipio::zip_num_entries;
use crate::zipio::Packer;

verus! {

/// One container entry: its slash-separated stored name and its content.
pub struct ArchiveEntry {
    pub name: Vec<u8>,
    pub data: Vec<u8>,
}

/// The model of a vector of entries: pairs of name bytes and content bytes.
pub open spec fn entries_view(v: Seq<ArchiveEntry>) -> Seq<(Seq<u8>, Seq<u8>)> {
    v.map_values(|e: ArchiveEntry| (e.name@, e.data@))
}

/// Every entry of the container can be read back.
pub open spec fn container_readable(b: Seq<u8>) -> bool {
    &&& zip_entries(b) is Some
    &&& forall|i: int| 0 <= i < zip_entries(b)->Some_0.len() ==> #[trigger] entry_readable(b, i)
}

/// Decodes a container into its entries, in central-directory order.  It
/// succeeds exactly when the bytes parse and every entry can be read back.
pub fn read_entries(b: &Vec<u8>) -> (r: Option<Vec<ArchiveEntry>>)
    ensures
        r is Some <==> container_readable(b@),
        r matches Some(v) ==> zip_entries(b@) is Some && entries_view(v@) == zip_entries(
            b@,
        )->Some_0,
{
    let n = match zip_num_entries(b) {
        Some(n) => n,
        None => {
            return None;
        },
    };
    let mut out: Vec<ArchiveEntry> = Vec::new();
    let mut i: usize = 0;
    proof {
        assert(entries_view(out@) =~= zip_entries(b@)->Some_0.take(0));
    }
    while i < n
        invariant
            zip_entries(b@) is Some,
            n == zip_entries(b@)->Some_0.len(),
            i <= n,
            entries_view(out@) == zip_entries(b@)->Some_0.take(i as int),
            forall|j: int| 0 <= j < i ==> #[trigger] entry_readable(b@, j),
        decreases n - i,
    {
        let name = zip_name_at(b, i);
        let data = match zip_data_at(b, i) {
            Some(d) => d,
            None => {
                return None;
            },
        };
        let e = ArchiveEntry { name, data };
        let ghost ev = (e.name@, e.data@);
        let ghost pre = out@;
        out.push(e);
        proof {
            assert(entries_view(out@) =~= entries_view(pre).push(ev));
            zip_entries(b@)->Some_0.lemma_take_succ_push(i as int);
        }
        i += 1;
    }
    proof {
        assert(zip_entries(b@)->Some_0.take(n as int) =~= zip_entries(b@)->Some_0);
    }
    Some(out)
}

/// A parent-directory component `..` stands at `i` in `name`: bounded on
/// the left by the start or a slash, on the right by the end or a slash.
pub open spec fn dotdot_at(name: Seq<u8>, i: int) -> bool {
    &&& 0 <= i
    &&& i + 2 <= name.len()
    &&& name[i] == 46
    &&& name[i + 1] == 46
    &&& (i == 0 || name[i - 1] == 47)
    &&& (i + 2 == name.len() || name[i + 2] == 47)
}

/// A stored entry name that may be materialized beneath an extraction root:
/// non-empty, relative, forward-slash separated, holding no backslash, no
/// drive or stream separator, no NUL byte and no parent-directory component.
pub open spec fn safe_name_spec(name: Seq<u8>) -> bool {
    &&& name.len() > 0
    &&& name[0] != 47
    &&& forall|i: int| 0 <= i < name.len() ==> #[trigger] name[i] != 92 && name[i] != 58 && name[i] != 0
    &&& forall|i: int| !dotdot_at(name, i)
}

/// The traversal-safety test: entries whose stored name could resolve
/// outside an extraction root are skipped, never written.
pub fn is_safe_entry_name(name: &[u8]) -> (r: bool)
    ensures
        r == safe_name_spec(name@),
{
    let n = name.len();
    if n == 0 {
        return false;
    }
    if name[0] == 47 {
        return false;
    }
    let mut i: usize = 0;
    while i < n
        invariant
            n == name@.len(),
            i <= n,
            forall|j: int| 0 <= j < i ==> #[trigger] name@[j] != 92 && name@[j] != 58 && name@[j] != 0,
            forall|j: int| j < i ==> !dotdot_at(name@, j),
        decreases n - i,
    {
        if name[i] == 92 || name[i] == 58 || name[i] == 0 {
            return false;
        }
        if name[i] == 46 && i + 1 < n && name[i + 1] == 46 && (i == 0 || name[i - 1] == 47) && (i
            + 2 == n || name[i + 2] == 47) {
            proof {
                assert(dotdot_at(name@, i as int));
            }
            return false;
        }
        i += 1;
    }
    proof {
        assert forall|j: int| !dotdot_at(name@, j) by {
            if dotdot_at(name@, j) {
                assert(0 <= j < n);
            }
        }
    }
    true
}

/// The bytes of `externalLinks`, the excluded sub-tree's directory segment.
pub open spec fn links_seg() -> Seq<u8> {
    seq![101u8, 120, 116, 101, 114, 110, 97, 108, 76, 105, 110, 107, 115]
}

/// The bytes of `externalLinks`, as a vector.
pub fn links_seg_vec() -> (v: Vec<u8>)
    ensures
        v@ == links_seg(),
{
    let mut v: Vec<u8> = Vec::new();
    v.push(101);
    v.push(120);
    v.push(116);
    v.push(101);
    v.push(114);
    v.push(110);
    v.push(97);
    v.push(108);
    v.push(76);
    v.push(105);
    v.push(110);
    v.push(107);
    v.push(115);
    proof {
        assert(v@ =~= links_seg());
    }
    v
}

/// The bytes of `xl/workbook.xml`, the descriptor's fixed name.
pub open spec fn workbook_name() -> Seq<u8> {
    seq![120u8, 108, 47, 119, 111, 114, 107, 98, 111, 111, 107, 46, 120, 109, 108]
}

/// The bytes of `xl/workbook.xml`, as a vector.
pub fn workbook_name_vec() -> (v: Vec<u8>)
    ensures
        v@ == workbook_name(),
{
    let mut v: Vec<u8> = Vec::new();
    v.push(120);
    v.push(108);
    v.push(47);
    v.push(119);
    v.push(111);
    v.push(114);
    v.push(107);
    v.push(98);
    v.push(111);
    v.push(111);
    v.push(107);
    v.push(46);
    v.push(120);
    v.push(109);
    v.push(108);
    proof {
        assert(v@ =~= workbook_name());
    }
    v
}

/// An entry survives the rewrite: safely named and nowhere under the
/// external-links sub-tree.
pub open spec fn entry_kept(e: (Seq<u8>, Seq<u8>)) -> bool {
    safe_name_spec(e.0) && !contains_seq(e.0, links_seg())
}

/// What a surviving entry becomes: the descriptor's content is cleaned,
/// every other entry is untouched.
pub open spec fn rewrite_entry(e: (Seq<u8>, Seq<u8>)) -> (Seq<u8>, Seq<u8>) {
    if e.0 == workbook_name() {
        (e.0, clean_spec(e.1))
    } else {
        e
    }
}

/// The survival test, as a function value for `filter`.
pub open spec fn kept_pred() -> spec_fn((Seq<u8>, Seq<u8>)) -> bool {
    |e: (Seq<u8>, Seq<u8>)| entry_kept(e)
}

/// The per-entry transform, as a function value for `map_values`.
pub open spec fn rewrite_fn() -> spec_fn((Seq<u8>, Seq<u8>)) -> (Seq<u8>, Seq<u8>) {
    |e: (Seq<u8>, Seq<u8>)| rewrite_entry(e)
}

/// The rewritten entry set: the survivors, each transformed, in order.
pub open spec fn rewrite_spec(es: Seq<(Seq<u8>, Seq<u8>)>) -> Seq<(Seq<u8>, Seq<u8>)> {
    es.filter(kept_pred()).map_values(rewrite_fn())
}

/// Rewrites the entry set: drops every unsafely-named entry and every entry
/// under the external-links sub-tree, cleans the descriptor, and keeps every
/// other entry byte-identical.
pub fn rewrite_entries(entries: &Vec<ArchiveEntry>) -> (r: Vec<ArchiveEntry>)
    ensures
        entries_view(r@) == rewrite_spec(entries_view(entries@)),
{
    let seg = links_seg_vec();
    let wb = workbook_name_vec();
    let ghost v = entries_view(entries@);
    let mut out: Vec<ArchiveEntry> = Vec::new();
    let mut i: usize = 0;
    proof {
        assert(v.take(0) =~= Seq::<(Seq<u8>, Seq<u8>)>::empty());
        assert(entries_view(out@) =~= rewrite_spec(v.take(0)));
    }
    while i < entries.len()
        invariant
            i <= entries.len(),
            v == entries_view(entries@),
            seg@ == links_seg(),
            wb@ == workbook_name(),
            entries_view(out@) == rewrite_spec(v.take(i as int)),
        decreases entries.len() - i,
    {
        let e = &entries[i];
        let ghost pre = out@;
        let keep = is_safe_entry_name(e.name.as_slice()) && !contains_bytes(
            e.name.as_slice(),
            seg.as_slice(),
        );
        if keep {
            let name = vstd::slice::slice_to_vec(e.name.as_slice());
            if eq_bytes(e.name.as_slice(), wb.as_slice()) {
                let data = clean_workbook_xml(e.data.as_slice());
                out.push(ArchiveEntry { name, data });
            } else {
                let data = vstd::slice::slice_to_vec(e.data.as_slice());
                out.push(ArchiveEntry { name, data });
            }
        }
        proof {
            v.lemma_take_succ_push(i as int);
            let pred = kept_pred();
            let f = rewrite_fn();
            assert(v.take(i + 1) == v.take(i as int).push(v[i as int]));
            v.take(i as int).lemma_filter_push(v[i as int], pred);
            assert(keep == pred(v[i as int]));
            if keep {
                assert(v.take(i as int).filter(pred).push(v[i as int]).map_values(f)
                    =~= v.take(i as int).filter(pred).map_values(f).push(f(v[i as int])));
                assert(entries_view(out@) =~= entries_view(pre).push(f(v[i as int])));
            } else {
                assert(entries_view(out@) =~= entries_view(pre));
            }
        }
        i += 1;
    }
    proof {
        assert(v.take(entries@.len() as int) =~= v);
    }
    out
}

/// The writer can hold the whole entry set: every name is UTF-8, fits the
/// 16-bit name-length field and is distinct, every content fits the 32-bit
/// uncompressed size field, and every content's deflate stream at the given
/// level fits it too.
pub open spec fn packable(es: Seq<(Seq<u8>, Seq<u8>)>, level: i64) -> bool {
    &&& forall|i: int| 0 <= i < es.len() ==> vstd::utf8::valid_utf8((#[trigger] es[i]).0)
    &&& forall|i: int| 0 <= i < es.len() ==> (#[trigger] es[i]).0.len() <= 0xFFFF
    &&& forall|i: int, j: int| 0 <= i < j < es.len() ==> es[i].0 != es[j].0
    &&& forall|i: int| 0 <= i < es.len() ==> (#[trigger] es[i]).1.len() <= 0xFFFF_FFFF
    &&& forall|i: int| 0 <= i < es.len() ==> deflate_fits((#[trigger] es[i]).1, level)
}

/// Packs entries into a fresh container at the given deflate level.  It
/// succeeds exactly when the writer can hold the whole set.
pub fn repack_entries(entries: &Vec<ArchiveEntry>, level: i64) -> (r: Option<Vec<u8>>)
    requires
        1 <= level <= 9,
    ensures
        r is Some <==> packable(entries_view(entries@), level),
        r matches Some(out) ==> zip_entries(out@) == Some(entries_view(entries@)),
{
    let ghost v = entries_view(entries@);
    let mut p = Packer::new(level);
    let mut i: usize = 0;
    proof {
        assert(packer_entries(p) =~= v.take(0));
    }
    while i < entries.len()
        invariant
            1 <= level <= 9,
            i <= entries.len(),
            v == entries_view(entries@),
            packer_entries(p) == v.take(i as int),
            packer_level(p) == level,
            forall|j: int| 0 <= j < i ==> vstd::utf8::valid_utf8((#[trigger] v[j]).0),
            forall|j: int| 0 <= j < i ==> (#[trigger] v[j]).0.len() <= 0xFFFF,
            forall|a: int, b2: int| 0 <= a < b2 < i ==> v[a].0 != v[b2].0,
            forall|j: int| 0 <= j < i ==> (#[trigger] v[j]).1.len() <= 0xFFFF_FFFF,
            forall|j: int| 0 <= j < i - 1 ==> deflate_fits((#[trigger] v[j]).1, level),
        decreases entries.len() - i,
    {
        let e = &entries[i];
        let ghost taken = v.take(i as int);
        let accepted = p.add_entry(&e.name, &e.data);
        proof {
            assert(v[i as int] == (e.name@, e.data@));
            assert(forall|j: int| 0 <= j < i ==> #[trigger] taken[j] == v[j]);
        }
        if accepted.is_err() {
            proof {
                if vstd::utf8::valid_utf8(v[i as int].0) && v[i as int].0.len() <= 0xFFFF && v[
                    i as int
                ].1.len() <= 0xFFFF_FFFF && (i == 0 || deflate_fits(v[i as int - 1].1, level)) {
                    let j = choose|j: int| 0 <= j < taken.len() && (#[trigger] taken[j]).0 == v[
                        i as int
                    ].0;
                    assert(v[j].0 == v[i as int].0);
                }
            }
            return None;
        }
        proof {
            v.lemma_take_succ_push(i as int);
            assert(packer_entries(p) =~= v.take(i + 1));
            if i > 0 {
                assert(taken.last() == v[i - 1]);
            }
            assert forall|a: int| 0 <= a < i implies v[a].0 != v[i as int].0 by {
                assert(taken[a] == v[a]);
            }
        }
        i += 1;
    }
    proof {
        assert(v.take(entries@.len() as int) =~= v);
    }
    let out = p.finish();
    proof {
        if v.len() > 0 {
            assert(v.last() == v[v.len() - 1]);
        }
        if out is Some {
            assert(packable(v, level));
        } else {
            assert(v.len() > 0 && !deflate_fits(v.last().1, level));
            assert(!packable(v, level));
        }
    }
    out
}

/// The operator-facing compression level check: the legal range is 1 to 9;
/// anything outside it fails rather than being clamped.
pub fn validate_compression_level(level: i64) -> (r: Result<i64, ()>)
    ensures
        r matches Ok(l) ==> l == level,
        r is Ok <==> 1 <= level <= 9,
{
    if 1 <= level && level <= 9 {
        Ok(level)
    } else {
        Err(())
    }
}

/// Rewrites one matched container: parses it, drops the external-links
/// sub-tree and every unsafely-named entry, cleans the descriptor, and
/// repacks the survivors at the given level.  It succeeds exactly when the
/// container's entries can all be read back and the writer can hold the
/// rewritten set; the input bytes are never altered.
pub fn rewrite_container(b: &Vec<u8>, level: i64) -> (r: Option<Vec<u8>>)
    requires
        1 <= level <= 9,
    ensures
        r is Some <==> container_readable(b@) && packable(
            rewrite_spec(zip_entries(b@)->Some_0),
            level,
        ),
        r matches Some(out) ==> zip_entries(b@) is Some && zip_entries(out@) == Some(
            rewrite_spec(zip_entries(b@)->Some_0),
        ),
{
    let entries = match read_entries(b) {
        Some(v) => v,
        None => {
            return None;
        },
    };
    let kept = rewrite_entries(&entries);
    repack_entries(&kept, level)
}

/// Law: the rewritten entry set holds no entry whose name carries the
/// external-links directory segment, whether or not the descriptor-cleaning
/// step changed anything.
pub proof fn lemma_rewrite_excludes_links(es: Seq<(Seq<u8>, Seq<u8>)>)
    ensures
        forall|i: int|
            0 <= i < rewrite_spec(es).len() ==> !contains_seq(
                (#[trigger] rewrite_spec(es)[i]).0,
                links_seg(),
            ),
{
    let pred = kept_pred();
    let kept = es.filter(pred);
    assert forall|i: int| 0 <= i < rewrite_spec(es).len() implies !contains_seq(
        (#[trigger] rewrite_spec(es)[i]).0,
        links_seg(),
    ) by {
        es.lemma_filter_pred(pred, i);
        assert(rewrite_spec(es)[i] == rewrite_entry(kept[i]));
        assert(rewrite_entry(kept[i]).0 == kept[i].0);
    }
}

/// Law: a rewritten entry set never matches detection again.  Every name
/// under the external-links prefix carries the excluded directory segment,
/// and no surviving entry carries that segment.
pub proof fn lemma_rewrite_clears_detection(es: Seq<(Seq<u8>, Seq<u8>)>)
    ensures
        !crate::search::has_links_entry(rewrite_spec(es)),
{
    let pred = kept_pred();
    if crate::search::has_links_entry(rewrite_spec(es)) {
        let i = choose|i: int|
            0 <= i < rewrite_spec(es).len() && crate::bytes::is_match_at(
                rewrite_spec(es)[i].0,
                crate::search::links_prefix(),
                0,
            );
        es.lemma_filter_pred(pred, i);
        let name = rewrite_spec(es)[i].0;
        assert(name == es.filter(pred)[i].0);
        assert(name.subrange(0, 16) == crate::search::links_prefix());
        assert forall|k: int| 0 <= k < 13 implies name.subrange(3, 16)[k] == links_seg()[k] by {
            assert(name.subrange(3, 16)[k] == name.subrange(0, 16)[k + 3]);
            assert(crate::search::links_prefix()[k + 3] == links_seg()[k]);
        }
        assert(name.subrange(3, 16) =~= links_seg());
        assert(crate::bytes::is_match_at(name, links_seg(), 3));
        assert(contains_seq(name, links_seg()));
        assert(!entry_kept(es.filter(pred)[i]));
    }
}

/// Every entry of a sequence that satisfies the filter's test passes
/// through the filter unchanged.
proof fn lemma_filter_all(es: Seq<(Seq<u8>, Seq<u8>)>, pred: spec_fn((Seq<u8>, Seq<u8>)) -> bool)
    requires
        forall|i: int| 0 <= i < es.len() ==> pred(#[trigger] es[i]),
    ensures
        es.filter(pred) == es,
    decreases es.len(),
{
    reveal(Seq::filter);
    if es.len() == 0 {
        assert(es.filter(pred) =~= es);
    } else {
        assert(forall|i: int|
            0 <= i < es.drop_last().len() ==> pred(#[trigger] es.drop_last()[i]));
        lemma_filter_all(es.drop_last(), pred);
        assert(pred(es.last()));
        assert(es.filter(pred) =~= es.drop_last().push(es.last()));
        assert(es.drop_last().push(es.last()) =~= es);
    }
}

/// Law: round trip without cleaning.  When every entry is safely named,
/// none lies under the external-links sub-tree, and the descriptor holds no
/// removal pattern, the rewrite reproduces the entry set exactly, content
/// included.
pub proof fn lemma_rewrite_round_trip(es: Seq<(Seq<u8>, Seq<u8>)>)
    requires
        forall|i: int| 0 <= i < es.len() ==> entry_kept(#[trigger] es[i]),
        forall|i: int|
            0 <= i < es.len() && (#[trigger] es[i]).0 == workbook_name() ==> fully_cleaned(
                es[i].1,
            ),
    ensures
        rewrite_spec(es) == es,
{
    let pred = kept_pred();
    let f = rewrite_fn();
    lemma_filter_all(es, pred);
    assert forall|i: int| 0 <= i < es.len() implies f(#[trigger] es[i]) == es[i] by {
        if es[i].0 == workbook_name() {
            lemma_strip_dn_identity(es[i].1);
            lemma_strip_ext_identity(es[i].1);
        }
    }
    assert(es.map_values(f) =~= es);
}

} // verus!
