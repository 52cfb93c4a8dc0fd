//! Trusted boundary to the zip codec.  Every item here wraps a call into the
//! `zip` crate over in-memory buffers; nothing else in the library touches
//! the codec, and nothing here decides anything.

use vstd::prelude::*;

verus! {

/// The parse of a zip-format container: for each entry, in central-directory
/// order, its decoded name bytes and its decompressed content bytes; `None`
/// when the bytes are not a parseable container.
pub uninterp spec fn zip_entries(b: Seq<u8>) -> Option<Seq<(Seq<u8>, Seq<u8>)>>;

/// Relies on `zip::ZipArchive::new` over an in-memory cursor, which parses
/// the central directory, and `ZipArchive::len`, the entry count.
#[verifier::external_body]
pub(crate) fn zip_num_entries(b: &Vec<u8>) -> (r: Option<usize>)
    ensures
        r is Some <==> zip_entries(b@) is Some,
        r matches Some(n) ==> zip_entries(b@)->Some_0.len() == n,
{
    match zip::ZipArchive::new(std::io::Cursor::new(b)) {
        Ok(a) => Some(a.len()),
        Err(_) => None,
    }
}

/// Relies on `zip::ZipArchive::name_for_index`, which returns the decoded
/// name of every entry whose index is below the count.
#[verifier::external_body]
pub(crate) fn zip_name_at(b: &Vec<u8>, i: usize) -> (r: Vec<u8>)
    requires
        zip_entries(b@) is Some,
        i < zip_entries(b@)->Some_0.len(),
    ensures
        r@ == zip_entries(b@)->Some_0[i as int].0,
{
    let a = zip::ZipArchive::new(std::io::Cursor::new(b)).unwrap();
    a.name_for_index(i).unwrap().as_bytes().to_vec()
}

/// Entry `i` of the container can be read back: its method is supported, it
/// is not encrypted, and its data inflates and passes the stored checksum.
/// A function of the bytes and the index alone.
pub uninterp spec fn entry_readable(b: Seq<u8>, i: int) -> bool;

/// Relies on `zip::ZipArchive::by_index` and `std::io::Read::read_to_end`:
/// the decompressed content of entry `i`.  Both steps are deterministic over
/// the buffer, so success is exactly `entry_readable`; it fails on an
/// unsupported method, encryption, or corrupt data.
#[verifier::external_body]
pub(crate) fn zip_data_at(b: &Vec<u8>, i: usize) -> (r: Option<Vec<u8>>)
    requires
        zip_entries(b@) is Some,
        i < zip_entries(b@)->Some_0.len(),
    ensures
        r is Some <==> entry_readable(b@, i as int),
        r matches Some(d) ==> d@ == zip_entries(b@)->Some_0[i as int].1,
{
    let mut a = zip::ZipArchive::new(std::io::Cursor::new(b)).unwrap();
    let entry = a.by_index(i);
    match entry {
        Ok(mut f) => {
            let mut buf = Vec::new();
            match std::io::Read::read_to_end(&mut f, &mut buf) {
                Ok(_) => Some(buf),
                Err(_) => None,
            }
        },
        Err(_) => None,
    }
}

/// An in-progress container being written with the deflate method at one
/// fixed level.  The writer state is the zip crate's; Verus sees it only
/// through `packer_entries`.
#[verifier::external_body]
pub struct Packer {
    writer: zip::ZipWriter<std::io::Cursor<Vec<u8>>>,
    level: i64,
}

/// The entries written into `p` so far: name bytes and content bytes, in
/// the order they were started.
pub uninterp spec fn packer_entries(p: Packer) -> Seq<(Seq<u8>, Seq<u8>)>;

/// The deflate level `p` was created with.
pub uninterp spec fn packer_level(p: Packer) -> i64;

/// The deflate stream of `data` at `level` fits the container's 32-bit size
/// field.  Deflate is deterministic, so this is a function of the two alone.
pub uninterp spec fn deflate_fits(data: Seq<u8>, level: i64) -> bool;

/// The writer accepts one more entry, given the entries it already holds:
/// the name is UTF-8, fits the 16-bit name-length field and is fresh, the
/// content fits the 32-bit uncompressed size field, and the previously open
/// entry's compressed form — checked only when that entry is closed, which
/// starting this one does — fits too.
pub open spec fn entry_accepted(
    es: Seq<(Seq<u8>, Seq<u8>)>,
    level: i64,
    name: Seq<u8>,
    data: Seq<u8>,
) -> bool {
    &&& vstd::utf8::valid_utf8(name)
    &&& name.len() <= 0xFFFF
    &&& forall|j: int| 0 <= j < es.len() ==> (#[trigger] es[j]).0 != name
    &&& data.len() <= 0xFFFF_FFFF
    &&& (es.len() == 0 || deflate_fits(es.last().1, level))
}

impl Packer {
    /// Relies on `zip::ZipWriter::new` over an empty in-memory cursor: a new
    /// container holding no entries yet.  Deflate accepts levels 0 to 9;
    /// the operator-facing range is narrower still.
    #[verifier::external_body]
    pub(crate) fn new(level: i64) -> (p: Packer)
        requires
            1 <= level <= 9,
        ensures
            packer_entries(p) == Seq::<(Seq<u8>, Seq<u8>)>::empty(),
            packer_level(p) == level,
    {
        Packer { writer: zip::ZipWriter::new(std::io::Cursor::new(Vec::new())), level }
    }

    /// Relies on `zip::ZipWriter::start_file`, which closes the previously
    /// open entry (erring exactly when that entry's compressed form outgrew
    /// the 32-bit size field), stores the given name verbatim (erring when
    /// it outgrows the 16-bit name-length field or repeats an earlier name),
    /// and `std::io::Write::write_all`, which errs exactly when the content
    /// outgrows the 32-bit size field.  Writing into an in-memory buffer
    /// cannot otherwise fail, so acceptance is exactly `entry_accepted`; on
    /// failure the entry was not appended and the container is abandoned by
    /// the caller.
    #[verifier::external_body]
    pub(crate) fn add_entry(&mut self, name: &Vec<u8>, data: &Vec<u8>) -> (r: Result<(), ()>)
        ensures
            packer_level(*final(self)) == packer_level(*old(self)),
            r is Ok <==> entry_accepted(
                packer_entries(*old(self)),
                packer_level(*old(self)),
                name@,
                data@,
            ),
            r is Ok ==> packer_entries(*final(self)) == packer_entries(*old(self)).push(
                (name@, data@),
            ),
    {
        let text = match String::from_utf8(name.clone()) {
            Ok(t) => t,
            Err(_) => return Err(()),
        };
        let opts = zip::write::SimpleFileOptions::default()
            .compression_method(zip::CompressionMethod::Deflated)
            .compression_level(Some(self.level));
        if self.writer.start_file(text, opts).is_err() {
            return Err(());
        }
        if std::io::Write::write_all(&mut self.writer, data.as_slice()).is_err() {
            return Err(());
        }
        Ok(())
    }

    /// Relies on `zip::ZipWriter::finish` and the codec round trip: a
    /// finished container parses back to exactly the entries written into
    /// it, names verbatim and contents re-inflated, in order.  Finishing
    /// closes the last open entry, whose deferred compressed-size check is
    /// the one step that can fail when the target is an in-memory buffer.
    #[verifier::external_body]
    pub(crate) fn finish(self) -> (r: Option<Vec<u8>>)
        ensures
            r is Some <==> (packer_entries(self).len() == 0 || deflate_fits(
                packer_entries(self).last().1,
                packer_level(self),
            )),
            r matches Some(out) ==> zip_entries(out@) == Some(packer_entries(self)),
    {
        match self.writer.finish() {
            Ok(cursor) => Some(cursor.into_inner()),
            Err(_) => None,
        }
    }
}

} // verus!
