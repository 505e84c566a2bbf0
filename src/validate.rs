use vstd::prelude::*;

use crate::diff::TileCoord;
use md5::Digest;

verus! {

/// A tile row as read for validation: its stored hash, if the file keeps one,
/// and the hash of its actual content.
#[derive(Clone, Debug, PartialEq, Eq)]
pub struct HashedTile {
    pub coord: TileCoord,
    pub stored_hash: Option<String>,
    pub computed_hash: String,
}

/// The row keeps a hash and it disagrees with its content.
pub open spec fn is_mismatch(t: HashedTile) -> bool {
    t.stored_hash is Some && t.stored_hash.unwrap()@ != t.computed_hash@
}

/// The coordinates of the mismatching rows, in row order.
pub open spec fn mismatches(s: Seq<HashedTile>) -> Seq<TileCoord>
    decreases s.len(),
{
    if s.len() == 0 {
        Seq::empty()
    } else if is_mismatch(s.last()) {
        mismatches(s.drop_last()).push(s.last().coord)
    } else {
        mismatches(s.drop_last())
    }
}

/// The coordinates whose stored hash disagrees with their content; rows
/// without a stored hash are skipped. An empty result means the file verified.
pub fn validate_tiles(rows: &Vec<HashedTile>) -> (r: Vec<TileCoord>)
    ensures
        r@ == mismatches(rows@),
{
    let mut out: Vec<TileCoord> = Vec::new();
    let mut i: usize = 0;
    while i < rows.len()
        invariant
            0 <= i <= rows@.len(),
            out@ == mismatches(rows@.subrange(0, i as int)),
        decreases rows@.len() - i,
    {
        proof {
            assert(rows@.subrange(0, i + 1).drop_last() =~= rows@.subrange(0, i as int));
        }
        let row = &rows[i];
        match &row.stored_hash {
            Some(h) => {
                if !(*h == row.computed_hash) {
                    out.push(row.coord);
                }
            },
            None => {},
        }
        i += 1;
    }
    proof {
        assert(rows@.subrange(0, rows@.len() as int) =~= rows@);
    }
    out
}

/// A file that keeps no hashes has no mismatches.
pub proof fn lemma_no_hashes_no_mismatches(rows: Seq<HashedTile>)
    requires
        forall|i: int| 0 <= i < rows.len() ==> (#[trigger] rows[i]).stored_hash is None,
    ensures
        mismatches(rows).len() == 0,
    decreases rows.len(),
{
    if rows.len() > 0 {
        lemma_no_hashes_no_mismatches(rows.drop_last());
    }
}

/// Where every row keeps a hash and exactly the row at `k` disagrees with it,
/// the mismatches are exactly that row's coordinate.
pub proof fn lemma_single_corruption(rows: Seq<HashedTile>, k: int)
    requires
        0 <= k < rows.len(),
        forall|i: int| 0 <= i < rows.len() ==> (#[trigger] rows[i]).stored_hash is Some,
        forall|i: int| 0 <= i < rows.len() ==> (is_mismatch(#[trigger] rows[i]) <==> i == k),
    ensures
        mismatches(rows) == seq![rows[k].coord],
    decreases rows.len(),
{
    let p = rows.drop_last();
    if k == rows.len() - 1 {
        assert forall|i: int| 0 <= i < p.len() implies (#[trigger] p[i]).stored_hash is None
            || !is_mismatch(p[i]) by {
            assert(p[i] == rows[i]);
        }
        lemma_no_mismatch(p);
        assert(mismatches(rows) =~= seq![rows[k].coord]);
    } else {
        assert forall|i: int| 0 <= i < p.len() implies (is_mismatch(#[trigger] p[i]) <==> i == k) by {
            assert(p[i] == rows[i]);
        }
        lemma_single_corruption(p, k);
    }
}

/// Rows that all agree with their stored hash, or keep none, have no mismatches.
proof fn lemma_no_mismatch(rows: Seq<HashedTile>)
    requires
        forall|i: int| 0 <= i < rows.len() ==> (#[trigger] rows[i]).stored_hash is None || !is_mismatch(rows[i]),
    ensures
        mismatches(rows).len() == 0,
    decreases rows.len(),
{
    if rows.len() > 0 {
        lemma_no_mismatch(rows.drop_last());
    }
}

/// The MD5 digest of the bytes, as uppercase hexadecimal.
pub uninterp spec fn md5_hex_of(data: Seq<u8>) -> Seq<char>;

/// Relies on md5::Md5::digest from the md-5 crate: the digest depends on the
/// bytes alone; it is written as 32 uppercase hexadecimal digits.
#[verifier::external_body]
pub(crate) fn content_hash(data: &Vec<u8>) -> (r: String)
    ensures
        r@ == md5_hex_of(data@),
{
    format!("{:X}", md5::Md5::digest(data))
}

/// A tile row as stored: its hash, if the file keeps one, and its bytes.
#[derive(Clone, Debug, PartialEq, Eq)]
pub struct StoredTile {
    pub coord: TileCoord,
    pub stored_hash: Option<String>,
    pub data: Vec<u8>,
}

/// The row keeps a hash and it is not the MD5 of its bytes.
pub open spec fn content_mismatch(t: StoredTile) -> bool {
    t.stored_hash is Some && t.stored_hash.unwrap()@ != md5_hex_of(t.data@)
}

/// The coordinates of the rows whose stored hash is not the MD5 of their bytes.
pub open spec fn content_mismatches(s: Seq<StoredTile>) -> Seq<TileCoord>
    decreases s.len(),
{
    if s.len() == 0 {
        Seq::empty()
    } else if content_mismatch(s.last()) {
        content_mismatches(s.drop_last()).push(s.last().coord)
    } else {
        content_mismatches(s.drop_last())
    }
}

/// Hashes each row's bytes and reports the coordinates whose stored hash
/// disagrees; rows without a stored hash are skipped.
pub fn validate_content(rows: &Vec<StoredTile>) -> (r: Vec<TileCoord>)
    ensures
        r@ == content_mismatches(rows@),
{
    let mut out: Vec<TileCoord> = Vec::new();
    let mut i: usize = 0;
    while i < rows.len()
        invariant
            0 <= i <= rows@.len(),
            out@ == content_mismatches(rows@.subrange(0, i as int)),
        decreases rows@.len() - i,
    {
        proof {
            assert(rows@.subrange(0, i + 1).drop_last() =~= rows@.subrange(0, i as int));
        }
        let row = &rows[i];
        match &row.stored_hash {
            Some(h) => {
                let computed = content_hash(&row.data);
                if !(*h == computed) {
                    out.push(row.coord);
                }
            },
            None => {},
        }
        i += 1;
    }
    proof {
        assert(rows@.subrange(0, rows@.len() as int) =~= rows@);
    }
    out
}

} // verus!
