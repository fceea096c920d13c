//! Classifying directory entries into blob descriptors.
//!
//! The binary enumerates the base directory and hands in one [`RawEntry`]
//! per child, recording which filesystem reads succeeded. The logic here
//! decides which entries qualify as blobs and what descriptor each gets:
//! a single bad entry is skipped and never aborts a listing.

use vstd::prelude::*;

verus! {

/// What the directory enumeration could observe about one child entry.
///
/// `ok` is false when the enumeration itself yielded an error in place of
/// an entry. `is_file` is `None` when the file type could not be read,
/// otherwise whether the entry is a regular file. `name` is `None` when the
/// final path segment could not be decoded as text. `size` is `None` when
/// the metadata (and so the byte size) could not be read.
pub struct RawEntry {
    pub ok: bool,
    pub is_file: Option<bool>,
    pub name: Option<String>,
    pub size: Option<u64>,
}

/// The listing record for one blob: its file name (final path segment,
/// no separators) and its size in bytes.
pub struct BlobDesc {
    pub name: String,
    pub size: u64,
}

/// An entry qualifies as a blob when it was enumerated without error, is
/// known to be a regular file, and its name decodes as text.
pub open spec fn qualifies(e: RawEntry) -> bool {
    e.ok && e.is_file == Some(true) && e.name is Some
}

/// The size a qualifying entry reports: its byte size, or 0 when the size
/// could not be determined.
pub open spec fn size_of(e: RawEntry) -> u64 {
    match e.size {
        Some(n) => n,
        None => 0u64,
    }
}

/// The descriptor a qualifying entry yields.
pub open spec fn desc_of(e: RawEntry) -> BlobDesc {
    BlobDesc { name: e.name->Some_0, size: size_of(e) }
}

/// The descriptor, if any, that one enumerated entry contributes.
pub open spec fn blob_of(e: RawEntry) -> Option<BlobDesc> {
    if qualifies(e) {
        Some(desc_of(e))
    } else {
        None
    }
}

/// The descriptors of a whole enumeration, in enumeration order: one per
/// qualifying entry, the others skipped.
pub open spec fn blobs_of(s: Seq<RawEntry>) -> Seq<BlobDesc>
    decreases s.len(),
{
    if s.len() == 0 {
        Seq::empty()
    } else {
        blobs_of(s.drop_last()) + match blob_of(s.last()) {
            Some(d) => seq![d],
            None => Seq::empty(),
        }
    }
}

/// A listing is exact: it is precisely the qualifying entries, in order,
/// each mapped to its descriptor. In particular a directory with N regular
/// files (readable, decodable names) among any number of other entries
/// yields exactly N descriptors, one per file, with that file's name and
/// size.
pub proof fn lemma_listing_exact(s: Seq<RawEntry>)
    ensures
        blobs_of(s) == s.filter(|e: RawEntry| qualifies(e)).map_values(
            |e: RawEntry| desc_of(e),
        ),
        blobs_of(s).len() == s.filter(|e: RawEntry| qualifies(e)).len(),
    decreases s.len(),
{
    reveal(Seq::filter);
    let pred = |e: RawEntry| qualifies(e);
    let f = |e: RawEntry| desc_of(e);
    if s.len() == 0 {
        assert(s.filter(pred) =~= Seq::<RawEntry>::empty());
        assert(blobs_of(s) =~= s.filter(pred).map_values(f));
    } else {
        let rest = s.drop_last();
        lemma_listing_exact(rest);
        if qualifies(s.last()) {
            assert(s.filter(pred) == rest.filter(pred).push(s.last()));
            assert(rest.filter(pred).push(s.last()).map_values(f) =~= rest.filter(
                pred,
            ).map_values(f).push(f(s.last())));
            assert(blobs_of(s) =~= blobs_of(rest).push(desc_of(s.last())));
        } else {
            assert(s.filter(pred) == rest.filter(pred));
            assert(blobs_of(s) =~= blobs_of(rest));
        }
    }
}

/// An entry whose size could not be determined is still listed, with size
/// reported as 0.
pub proof fn lemma_unknown_size_is_zero(e: RawEntry)
    requires
        qualifies(e),
        e.size is None,
    ensures
        blob_of(e) == Some(desc_of(e)),
        desc_of(e).size == 0,
{
}

impl crate::BlobResource {
    /// Turns one enumerated entry into its descriptor, or `None` for an
    /// entry that is skipped (enumeration error, not a regular file,
    /// undecodable name). A missing size defaults to 0.
    pub fn entry_result_to_blobdesc(entry: RawEntry) -> (r: Option<BlobDesc>)
        ensures
            r == blob_of(entry),
    {
        if !entry.ok {
            return None;
        }
        let is_file = match entry.is_file {
            Some(t) => t,
            None => false,
        };
        if !is_file {
            return None;
        }
        let name = match entry.name {
            Some(n) => n,
            None => {
                return None;
            },
        };
        let size = match entry.size {
            Some(s) => s,
            None => 0u64,
        };
        Some(BlobDesc { name, size })
    }

    /// Folds a whole enumeration into its listing: the descriptors of the
    /// qualifying entries, in enumeration order.
    pub fn list_blobs(&self, dir: Vec<RawEntry>) -> (r: Vec<BlobDesc>)
        ensures
            r@ == blobs_of(dir@),
    {
        let ghost all = dir@;
        let mut rest = dir;
        let mut out: Vec<BlobDesc> = Vec::new();
        proof {
            assert(rest@ =~= all.subrange(all.len() - rest@.len(), all.len() as int));
            assert(all.subrange(0, 0) =~= Seq::<RawEntry>::empty());
        }
        while rest.len() > 0
            invariant
                rest@.len() <= all.len(),
                rest@ == all.subrange(all.len() - rest@.len(), all.len() as int),
                out@ == blobs_of(all.subrange(0, all.len() - rest@.len())),
            decreases rest@.len(),
        {
            let ghost k = all.len() - rest@.len();
            proof {
                assert(rest@[0] == all[k as int]);
            }
            let e = rest.remove(0);
            let ghost ge = e;
            proof {
                assert(rest@ =~= all.subrange(k as int + 1, all.len() as int));
            }
            match Self::entry_result_to_blobdesc(e) {
                Some(d) => {
                    out.push(d);
                },
                None => {},
            }
            proof {
                let prev = all.subrange(0, k as int);
                let cur = all.subrange(0, k as int + 1);
                assert(cur.drop_last() =~= prev);
                assert(cur.last() == ge);
                match blob_of(ge) {
                    Some(d) => {
                        assert(out@ =~= blobs_of(prev) + seq![d]);
                    },
                    None => {
                        assert(out@ =~= blobs_of(prev) + Seq::<BlobDesc>::empty());
                    },
                }
            }
        }
        proof {
            assert(all.subrange(0, all.len() as int) =~= all);
        }
        out
    }
}

} // verus!
