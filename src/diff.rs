use vstd::prelude::*;

use crate::errors::MbtError;
use crate::tile_copier::{CopyDuplicateMode, MbtType};
use crate::validate::{content_hash, md5_hex_of};

verus! {

/// The address of a tile.
#[derive(Clone, Copy, Debug, PartialEq, Eq, Structural)]
pub struct TileCoord {
    pub zoom: u8,
    pub x: u32,
    pub y: u32,
}

/// A tile: its coordinate and its content bytes.
#[derive(Clone, Debug, PartialEq, Eq)]
pub struct TileRecord {
    pub coord: TileCoord,
    pub data: Vec<u8>,
}

/// What a diff record does to its coordinate.
#[derive(Clone, Copy, Debug, PartialEq, Eq, Structural)]
pub enum DiffOp {
    Insert,
    Update,
    Delete,
}

/// One row of a diff: content is present for `Insert` and `Update`, absent for `Delete`.
#[derive(Clone, Debug, PartialEq, Eq)]
pub struct DiffRecord {
    pub coord: TileCoord,
    pub op: DiffOp,
    pub data: Option<Vec<u8>>,
}

/// No two tiles share a coordinate.
pub open spec fn coords_unique(s: Seq<TileRecord>) -> bool {
    forall|i: int, j: int| 0 <= i < j < s.len() ==> s[i].coord != s[j].coord
}

/// A snapshot as a map from coordinates to content.
pub open spec fn tile_map(s: Seq<TileRecord>) -> Map<TileCoord, Seq<u8>>
    decreases s.len(),
{
    if s.len() == 0 {
        Map::empty()
    } else {
        tile_map(s.drop_last()).insert(s.last().coord, s.last().data@)
    }
}

/// The content a record leaves at its coordinate; `None` removes the tile.
pub open spec fn record_content(r: DiffRecord) -> Option<Seq<u8>> {
    match r.op {
        DiffOp::Delete => None,
        _ => match r.data {
            Some(d) => Some(d@),
            None => None,
        },
    }
}

/// An `Insert` or `Update` carries content; a `Delete` carries none.
pub open spec fn record_well_formed(r: DiffRecord) -> bool {
    (r.op == DiffOp::Delete) <==> r.data.is_none()
}

/// A diff as a map from coordinates to what it leaves there; a later record
/// for a coordinate takes the place of an earlier one.
pub open spec fn diff_map(d: Seq<DiffRecord>) -> Map<TileCoord, Option<Seq<u8>>>
    decreases d.len(),
{
    if d.len() == 0 {
        Map::empty()
    } else {
        diff_map(d.drop_last()).insert(d.last().coord, record_content(d.last()))
    }
}

/// The snapshot `m` after the records of `d`, applied in order.
pub open spec fn apply_records(m: Map<TileCoord, Seq<u8>>, d: Seq<DiffRecord>) -> Map<
    TileCoord,
    Seq<u8>,
>
    decreases d.len(),
{
    if d.len() == 0 {
        m
    } else {
        let prev = apply_records(m, d.drop_last());
        match record_content(d.last()) {
            Some(c) => prev.insert(d.last().coord, c),
            None => prev.remove(d.last().coord),
        }
    }
}

/// `m` with every entry of `dm` written over it: `Some` sets, `None` removes.
pub open spec fn overlay(m: Map<TileCoord, Seq<u8>>, dm: Map<TileCoord, Option<Seq<u8>>>) -> Map<
    TileCoord,
    Seq<u8>,
> {
    Map::new(
        |c: TileCoord|
            if dm.contains_key(c) {
                dm[c] is Some
            } else {
                m.contains_key(c)
            },
        |c: TileCoord|
            if dm.contains_key(c) {
                dm[c].unwrap()
            } else {
                m[c]
            },
    )
}

/// Coordinates of `a` and `b` whose content differs.
pub open spec fn conflicting(a: Map<TileCoord, Seq<u8>>, b: Map<TileCoord, Seq<u8>>, c: TileCoord) -> bool {
    a.contains_key(c) && b.contains_key(c) && a[c] != b[c]
}

/// The records a diff from `a` to `b` writes with B's content: tiles new in
/// `b`, and under `Override` tiles whose content changed.
pub open spec fn upserts(
    a: Map<TileCoord, Seq<u8>>,
    b: Map<TileCoord, Seq<u8>>,
    mode: CopyDuplicateMode,
) -> Map<TileCoord, Option<Seq<u8>>> {
    Map::new(
        |c: TileCoord|
            b.contains_key(c) && (!a.contains_key(c) || (conflicting(a, b, c) && mode
                == CopyDuplicateMode::Override)),
        |c: TileCoord| Some(b[c]),
    )
}

/// The deletions of a diff from `a` to `b`: tiles of `a` that `b` lacks.
pub open spec fn deletions(a: Map<TileCoord, Seq<u8>>, b: Map<TileCoord, Seq<u8>>) -> Map<
    TileCoord,
    Option<Seq<u8>>,
> {
    Map::new(|c: TileCoord| a.contains_key(c) && !b.contains_key(c), |c: TileCoord| None)
}

/// What a diff from `a` to `b` under `mode` holds, coordinate by coordinate.
pub open spec fn expected_diff(
    a: Map<TileCoord, Seq<u8>>,
    b: Map<TileCoord, Seq<u8>>,
    mode: CopyDuplicateMode,
) -> Map<TileCoord, Option<Seq<u8>>> {
    upserts(a, b, mode).union_prefer_right(deletions(a, b))
}

/// The keys of `tile_map(s)` are the coordinates of `s`, and each maps to the
/// content of the tile at that coordinate.
pub proof fn lemma_tile_map(s: Seq<TileRecord>)
    requires
        coords_unique(s),
    ensures
        forall|c: TileCoord|
            tile_map(s).contains_key(c) <==> exists|i: int| 0 <= i < s.len() && s[i].coord == c,
        forall|i: int| 0 <= i < s.len() ==> #[trigger] tile_map(s)[s[i].coord] == s[i].data@,
    decreases s.len(),
{
    if s.len() > 0 {
        let p = s.drop_last();
        assert(coords_unique(p)) by {
            assert forall|i: int, j: int| 0 <= i < j < p.len() implies p[i].coord != p[j].coord by {
                assert(p[i] == s[i] && p[j] == s[j]);
            }
        }
        lemma_tile_map(p);
        assert(tile_map(s) == tile_map(p).insert(s.last().coord, s.last().data@));
        assert forall|c: TileCoord|
            tile_map(s).contains_key(c) <==> exists|i: int| 0 <= i < s.len() && s[i].coord == c by {
            if tile_map(s).contains_key(c) && c != s.last().coord {
                let i = choose|i: int| 0 <= i < p.len() && p[i].coord == c;
                assert(s[i].coord == c);
            }
            if exists|i: int| 0 <= i < s.len() && s[i].coord == c {
                let i = choose|i: int| 0 <= i < s.len() && s[i].coord == c;
                if i < p.len() {
                    assert(p[i].coord == c);
                }
            }
        }
        assert forall|i: int| 0 <= i < s.len() implies #[trigger] tile_map(s)[s[i].coord]
            == s[i].data@ by {
            if i < p.len() {
                assert(p[i] == s[i]);
                assert(s[i].coord != s.last().coord);
            }
        }
    }
}

/// Removing the tile at index `i` removes its coordinate from the map.
proof fn lemma_tile_map_remove(s: Seq<TileRecord>, i: int)
    requires
        coords_unique(s),
        0 <= i < s.len(),
    ensures
        coords_unique(s.remove(i)),
        tile_map(s.remove(i)) == tile_map(s).remove(s[i].coord),
{
    let r = s.remove(i);
    assert(coords_unique(r)) by {
        assert forall|j: int, k: int| 0 <= j < k < r.len() implies r[j].coord != r[k].coord by {
            let jj = if j < i { j } else { j + 1 };
            let kk = if k < i { k } else { k + 1 };
            assert(r[j] == s[jj]);
            assert(r[k] == s[kk]);
        }
    }
    lemma_tile_map(s);
    lemma_tile_map(r);
    let m = tile_map(s).remove(s[i].coord);
    assert forall|c: TileCoord| tile_map(r).contains_key(c) <==> m.contains_key(c) by {
        if tile_map(r).contains_key(c) {
            let j = choose|j: int| 0 <= j < r.len() && r[j].coord == c;
            let jj = if j < i { j } else { j + 1 };
            assert(s[jj].coord == c);
        }
        if m.contains_key(c) {
            let j = choose|j: int| 0 <= j < s.len() && s[j].coord == c;
            assert(j != i);
            if j < i {
                assert(r[j].coord == c);
            } else {
                assert(r[j - 1].coord == c);
            }
        }
    }
    assert forall|c: TileCoord| #[trigger] tile_map(r).contains_key(c) implies tile_map(r)[c]
        == m[c] by {
        let j = choose|j: int| 0 <= j < r.len() && r[j].coord == c;
        let jj = if j < i { j } else { j + 1 };
        assert(r[j] == s[jj]);
        assert(tile_map(r)[r[j].coord] == r[j].data@);
        assert(tile_map(s)[s[jj].coord] == s[jj].data@);
    }
    assert(tile_map(r) =~= m);
}

/// Applying records one by one is writing their map over the snapshot.
pub proof fn lemma_apply_is_overlay(m: Map<TileCoord, Seq<u8>>, d: Seq<DiffRecord>)
    ensures
        apply_records(m, d) == overlay(m, diff_map(d)),
    decreases d.len(),
{
    if d.len() == 0 {
        assert(overlay(m, diff_map(d)) =~= m);
    } else {
        lemma_apply_is_overlay(m, d.drop_last());
        assert(apply_records(m, d) =~= overlay(m, diff_map(d)));
    }
}

/// Index of the tile at `c`, if `tiles` holds one.
pub fn find_tile(tiles: &Vec<TileRecord>, c: TileCoord) -> (r: Option<usize>)
    ensures
        r matches Some(i) ==> i < tiles@.len() && tiles@[i as int].coord == c,
        r is None ==> forall|i: int| 0 <= i < tiles@.len() ==> tiles@[i].coord != c,
{
    let mut i: usize = 0;
    while i < tiles.len()
        invariant
            0 <= i <= tiles@.len(),
            forall|k: int| 0 <= k < i ==> tiles@[k].coord != c,
        decreases tiles@.len() - i,
    {
        if tiles[i].coord == c {
            return Some(i);
        }
        i += 1;
    }
    None
}

/// Whether two byte strings are equal.
pub fn same_bytes(a: &Vec<u8>, b: &Vec<u8>) -> (r: bool)
    ensures
        r == (a@ == b@),
{
    if a.len() != b.len() {
        return false;
    }
    let mut i: usize = 0;
    while i < a.len()
        invariant
            0 <= i <= a@.len(),
            a@.len() == b@.len(),
            forall|k: int| 0 <= k < i ==> a@[k] == b@[k],
        decreases a@.len() - i,
    {
        if a[i] != b[i] {
            return false;
        }
        i += 1;
    }
    assert(a@ =~= b@);
    true
}

/// A copy of the bytes.
fn copy_bytes(v: &Vec<u8>) -> (r: Vec<u8>)
    ensures
        r@ == v@,
{
    let r = v.clone();
    assert(r@ =~= v@);
    r
}

/// No two records of a diff share a coordinate.
pub open spec fn diff_coords_unique(d: Seq<DiffRecord>) -> bool {
    forall|i: int, j: int| 0 <= i < j < d.len() ==> d[i].coord != d[j].coord
}

/// Every record's coordinate is a key of the diff's map.
proof fn lemma_diff_map_keys(d: Seq<DiffRecord>)
    ensures
        forall|k: int| 0 <= k < d.len() ==> diff_map(d).contains_key(#[trigger] d[k].coord),
    decreases d.len(),
{
    if d.len() > 0 {
        lemma_diff_map_keys(d.drop_last());
        assert forall|k: int| 0 <= k < d.len() implies diff_map(d).contains_key(#[trigger] d[k].coord) by {
            if k < d.len() - 1 {
                assert(d.drop_last()[k] == d[k]);
            }
        }
    }
}

/// Appending a record for a coordinate the diff does not mention keeps the
/// coordinates distinct.
proof fn lemma_push_keeps_unique(d: Seq<DiffRecord>, r: DiffRecord)
    requires
        diff_coords_unique(d),
        !diff_map(d).contains_key(r.coord),
    ensures
        diff_coords_unique(d.push(r)),
{
    lemma_diff_map_keys(d);
    let e = d.push(r);
    assert forall|i: int, j: int| 0 <= i < j < e.len() implies e[i].coord != e[j].coord by {
        assert(e[i] == d[i]);
        if j < d.len() {
            assert(e[j] == d[j]);
        }
    }
}

/// Whether record `r` is of the kind that `a` calls for: an `Insert` for a
/// coordinate that `a` lacks, an `Update` for one that it holds.
pub open spec fn op_fits(a: Map<TileCoord, Seq<u8>>, r: DiffRecord) -> bool {
    &&& r.op == DiffOp::Insert ==> !a.contains_key(r.coord)
    &&& r.op == DiffOp::Update ==> a.contains_key(r.coord)
    &&& r.op == DiffOp::Delete ==> a.contains_key(r.coord)
}

/// The diff that turns snapshot `a` into snapshot `b`.
///
/// A coordinate only in `b` gives an `Insert` with its content, one only in `a`
/// a `Delete`; equal content gives nothing. Where both hold differing content,
/// `Override` gives an `Update` with `b`'s content, `Ignore` gives nothing, and
/// `Abort` fails with `DuplicateTileError` naming such a coordinate.
pub fn compute_diff(a: &Vec<TileRecord>, b: &Vec<TileRecord>, mode: CopyDuplicateMode) -> (r:
    Result<Vec<DiffRecord>, MbtError>)
    requires
        coords_unique(a@),
        coords_unique(b@),
    ensures
        r is Err <==> mode == CopyDuplicateMode::Abort && exists|c: TileCoord|
            conflicting(tile_map(a@), tile_map(b@), c),
        r matches Err(e) ==> (e matches MbtError::DuplicateTileError(z, x, y) && conflicting(
            tile_map(a@),
            tile_map(b@),
            TileCoord { zoom: z, x, y },
        )),
        r matches Ok(d) ==> diff_map(d@) == expected_diff(tile_map(a@), tile_map(b@), mode),
        r matches Ok(d) ==> diff_coords_unique(d@),
        r matches Ok(d) ==> forall|i: int|
            0 <= i < d@.len() ==> record_well_formed(#[trigger] d@[i]) && op_fits(tile_map(a@), d@[i]),
        r matches Ok(d) ==> mode == CopyDuplicateMode::Override ==> apply_records(tile_map(a@), d@)
            == tile_map(b@),
{
    let ghost am = tile_map(a@);
    let ghost bm = tile_map(b@);
    proof {
        lemma_tile_map(a@);
        lemma_tile_map(b@);
    }
    let mut out: Vec<DiffRecord> = Vec::new();
    let mut j: usize = 0;
    while j < b.len()
        invariant
            0 <= j <= b@.len(),
            coords_unique(a@),
            coords_unique(b@),
            am == tile_map(a@),
            bm == tile_map(b@),
            forall|c: TileCoord| am.contains_key(c) <==> exists|i: int| 0 <= i < a@.len() && a@[i].coord == c,
            forall|i: int| 0 <= i < a@.len() ==> #[trigger] am[a@[i].coord] == a@[i].data@,
            diff_map(out@) == upserts(am, tile_map(b@.subrange(0, j as int)), mode),
            diff_coords_unique(out@),
            forall|i: int|
                0 <= i < out@.len() ==> record_well_formed(#[trigger] out@[i]) && op_fits(am, out@[i]),
            mode == CopyDuplicateMode::Abort ==> forall|k: int|
                0 <= k < j ==> !(am.contains_key(#[trigger] b@[k].coord) && am[b@[k].coord] != b@[k].data@),
        decreases b@.len() - j,
    {
        let rec = &b[j];
        let ghost prefix = b@.subrange(0, j as int);
        let ghost next = b@.subrange(0, j + 1);
        proof {
            assert(next.drop_last() =~= prefix);
            assert(tile_map(next) == tile_map(prefix).insert(rec.coord, rec.data@));
            assert(coords_unique(prefix));
            lemma_tile_map(prefix);
            assert(!tile_map(prefix).contains_key(rec.coord)) by {
                if tile_map(prefix).contains_key(rec.coord) {
                    let k = choose|k: int| 0 <= k < prefix.len() && prefix[k].coord == rec.coord;
                    assert(b@[k].coord == b@[j as int].coord);
                }
            }
        }
        let ghost before = out@;
        match find_tile(a, rec.coord) {
            None => {
                let r = DiffRecord { coord: rec.coord, op: DiffOp::Insert, data: Some(copy_bytes(&rec.data)) };
                proof {
                    lemma_push_keeps_unique(before, r);
                }
                out.push(r);
                proof {
                    assert(out@.drop_last() =~= before);
                    assert(diff_map(out@) =~= upserts(am, tile_map(next), mode));
                }
            },
            Some(i) => {
                if same_bytes(&a[i].data, &rec.data) {
                    proof {
                        assert(diff_map(out@) =~= upserts(am, tile_map(next), mode));
                    }
                } else {
                    match mode {
                        CopyDuplicateMode::Override => {
                            let r = DiffRecord { coord: rec.coord, op: DiffOp::Update, data: Some(copy_bytes(&rec.data)) };
                            proof {
                                lemma_push_keeps_unique(before, r);
                            }
                            out.push(r);
                            proof {
                                assert(out@.drop_last() =~= before);
                                assert(diff_map(out@) =~= upserts(am, tile_map(next), mode));
                            }
                        },
                        CopyDuplicateMode::Ignore => {
                            proof {
                                assert(diff_map(out@) =~= upserts(am, tile_map(next), mode));
                            }
                        },
                        CopyDuplicateMode::Abort => {
                            proof {
                                lemma_tile_map(b@);
                                assert(bm.contains_key(b@[j as int].coord));
                                assert(bm[b@[j as int].coord] == b@[j as int].data@);
                                assert(conflicting(am, bm, rec.coord));
                            }
                            return Err(MbtError::DuplicateTileError(rec.coord.zoom, rec.coord.x, rec.coord.y));
                        },
                    }
                }
            },
        }
        j += 1;
    }
    proof {
        assert(b@.subrange(0, b@.len() as int) =~= b@);
    }
    let mut i: usize = 0;
    while i < a.len()
        invariant
            0 <= i <= a@.len(),
            coords_unique(a@),
            am == tile_map(a@),
            bm == tile_map(b@),
            forall|c: TileCoord| bm.contains_key(c) <==> exists|k: int| 0 <= k < b@.len() && b@[k].coord == c,
            diff_map(out@) == upserts(am, bm, mode).union_prefer_right(deletions(tile_map(a@.subrange(0, i as int)), bm)),
            diff_coords_unique(out@),
            forall|k: int|
                0 <= k < out@.len() ==> record_well_formed(#[trigger] out@[k]) && op_fits(am, out@[k]),
        decreases a@.len() - i,
    {
        let rec = &a[i];
        let ghost prefix = a@.subrange(0, i as int);
        let ghost next = a@.subrange(0, i + 1);
        proof {
            assert(next.drop_last() =~= prefix);
            assert(tile_map(next) == tile_map(prefix).insert(rec.coord, rec.data@));
            lemma_tile_map(a@);
            assert(am.contains_key(a@[i as int].coord));
        }
        let ghost before = out@;
        match find_tile(b, rec.coord) {
            None => {
                let r = DiffRecord { coord: rec.coord, op: DiffOp::Delete, data: None };
                proof {
                    assert(coords_unique(prefix));
                    lemma_tile_map(prefix);
                    assert(!tile_map(prefix).contains_key(rec.coord)) by {
                        if tile_map(prefix).contains_key(rec.coord) {
                            let k = choose|k: int| 0 <= k < prefix.len() && prefix[k].coord == rec.coord;
                            assert(a@[k].coord == a@[i as int].coord);
                        }
                    }
                    lemma_push_keeps_unique(before, r);
                }
                out.push(r);
                proof {
                    assert(!bm.contains_key(rec.coord));
                    assert(out@.drop_last() =~= before);
                    assert(diff_map(out@) =~= upserts(am, bm, mode).union_prefer_right(deletions(tile_map(next), bm)));
                }
            },
            Some(_) => {
                proof {
                    assert(diff_map(out@) =~= upserts(am, bm, mode).union_prefer_right(deletions(tile_map(next), bm)));
                }
            },
        }
        i += 1;
    }
    proof {
        assert(a@.subrange(0, a@.len() as int) =~= a@);
        if mode == CopyDuplicateMode::Abort {
            assert forall|c: TileCoord| !conflicting(am, bm, c) by {
                if bm.contains_key(c) {
                    let k = choose|k: int| 0 <= k < b@.len() && b@[k].coord == c;
                    assert(bm[b@[k].coord] == b@[k].data@);
                }
            }
        }
        if mode == CopyDuplicateMode::Override {
            lemma_diff_round_trip(a@, b@, out@);
        }
    }
    Ok(out)
}

/// Applying a diff computed from `a` to `b` under `Override` to `a` gives `b`.
pub proof fn lemma_diff_round_trip(a: Seq<TileRecord>, b: Seq<TileRecord>, d: Seq<DiffRecord>)
    requires
        diff_map(d) == expected_diff(tile_map(a), tile_map(b), CopyDuplicateMode::Override),
    ensures
        apply_records(tile_map(a), d) == tile_map(b),
{
    lemma_apply_is_overlay(tile_map(a), d);
    assert(overlay(tile_map(a), diff_map(d)) =~= tile_map(b));
}

/// At a coordinate where `a` and `b` hold differing content, a diff computed
/// under `Ignore` leaves `a`'s content when applied to `a`, and one computed
/// under `Override` leaves `b`'s.
pub proof fn lemma_duplicate_resolution(
    a: Seq<TileRecord>,
    b: Seq<TileRecord>,
    c: TileCoord,
    ignored: Seq<DiffRecord>,
    overridden: Seq<DiffRecord>,
)
    requires
        conflicting(tile_map(a), tile_map(b), c),
        diff_map(ignored) == expected_diff(tile_map(a), tile_map(b), CopyDuplicateMode::Ignore),
        diff_map(overridden) == expected_diff(tile_map(a), tile_map(b), CopyDuplicateMode::Override),
    ensures
        apply_records(tile_map(a), ignored).contains_key(c),
        apply_records(tile_map(a), ignored)[c] == tile_map(a)[c],
        apply_records(tile_map(a), overridden).contains_key(c),
        apply_records(tile_map(a), overridden)[c] == tile_map(b)[c],
{
    lemma_apply_is_overlay(tile_map(a), ignored);
    lemma_diff_round_trip(a, b, overridden);
    assert(!diff_map(ignored).contains_key(c));
}

/// Applies the records of `diff` in order to `target`, all or nothing.
///
/// `Insert` and `Update` write the tile whether or not one is there; `Delete`
/// removes the tile if there is one. `SchemaMismatch` here means that a record's
/// shape does not fit the tile model: an `Insert` or `Update` without content,
/// or a `Delete` with content. Such a record fails the whole application, and
/// `target` is left as it was. Both storage layouts represent every
/// well-formed record, so the layout itself never causes this error.
pub fn apply_diff(target: &mut Vec<TileRecord>, diff: &Vec<DiffRecord>) -> (r: Result<(), MbtError>)
    requires
        coords_unique(old(target)@),
    ensures
        coords_unique(final(target)@),
        r is Ok <==> forall|i: int| 0 <= i < diff@.len() ==> record_well_formed(#[trigger] diff@[i]),
        r is Ok ==> tile_map(final(target)@) == apply_records(tile_map(old(target)@), diff@),
        r is Err ==> r == Err::<(), MbtError>(MbtError::SchemaMismatch) && final(target)@ == old(target)@,
{
    let mut k: usize = 0;
    while k < diff.len()
        invariant
            0 <= k <= diff@.len(),
            forall|i: int| 0 <= i < k ==> record_well_formed(#[trigger] diff@[i]),
            coords_unique(target@),
            target@ == old(target)@,
        decreases diff@.len() - k,
    {
        let well_formed = match diff[k].op {
            DiffOp::Delete => diff[k].data.is_none(),
            _ => diff[k].data.is_some(),
        };
        if !well_formed {
            return Err(MbtError::SchemaMismatch);
        }
        k += 1;
    }
    let ghost start = tile_map(target@);
    let mut k: usize = 0;
    while k < diff.len()
        invariant
            0 <= k <= diff@.len(),
            forall|i: int| 0 <= i < diff@.len() ==> record_well_formed(#[trigger] diff@[i]),
            coords_unique(target@),
            tile_map(target@) == apply_records(start, diff@.subrange(0, k as int)),
        decreases diff@.len() - k,
    {
        let rec = &diff[k];
        let ghost done = apply_records(start, diff@.subrange(0, k as int));
        proof {
            assert(diff@.subrange(0, k + 1).drop_last() =~= diff@.subrange(0, k as int));
            assert(record_well_formed(diff@[k as int]));
            lemma_tile_map(target@);
        }
        let pos = find_tile(target, rec.coord);
        match pos {
            Some(i) => {
                proof {
                    lemma_tile_map_remove(target@, i as int);
                }
                target.remove(i);
            },
            None => {
                proof {
                    assert(!tile_map(target@).contains_key(rec.coord));
                    assert(tile_map(target@).remove(rec.coord) =~= tile_map(target@));
                }
            },
        }
        proof {
            lemma_tile_map(target@);
        }
        match &rec.data {
            Some(data) => {
                let ghost removed = target@;
                target.push(TileRecord { coord: rec.coord, data: copy_bytes(data) });
                proof {
                    assert(target@.drop_last() =~= removed);
                    assert(tile_map(target@) =~= done.insert(rec.coord, data@));
                    assert forall|a: int, b: int| 0 <= a < b < target@.len() implies target@[a].coord
                        != target@[b].coord by {
                        if b == target@.len() - 1 {
                            assert(target@[a] == removed[a]);
                        } else {
                            assert(target@[a] == removed[a] && target@[b] == removed[b]);
                        }
                    }
                }
            },
            None => {},
        }
        k += 1;
    }
    proof {
        assert(diff@.subrange(0, diff@.len() as int) =~= diff@);
    }
    Ok(())
}

/// A value bound to a statement's placeholder.
#[derive(Clone, Debug, PartialEq, Eq)]
pub enum SqlValue {
    Int(i64),
    Text(String),
    Blob(Vec<u8>),
}

/// A statement together with the values for its placeholders, in order.
#[derive(Clone, Debug, PartialEq, Eq)]
pub struct Statement {
    pub sql: String,
    pub params: Vec<SqlValue>,
}

pub open spec fn flat_upsert_text() -> Seq<char> {
    "INSERT OR REPLACE INTO tiles (zoom_level, tile_column, tile_row, tile_data) VALUES (?, ?, ?, ?)"@
}

pub open spec fn flat_delete_text() -> Seq<char> {
    "DELETE FROM tiles WHERE zoom_level = ? AND tile_column = ? AND tile_row = ?"@
}

/// Adds a content row under the given id unless one with that id exists.
pub open spec fn images_add_text() -> Seq<char> {
    "INSERT INTO images (tile_data, tile_id) SELECT ?, ? WHERE NOT EXISTS (SELECT 1 FROM images WHERE tile_id = ?)"@
}

/// Points the coordinate at the content row with the given id.
pub open spec fn map_upsert_text() -> Seq<char> {
    "INSERT OR REPLACE INTO map (zoom_level, tile_column, tile_row, tile_id) VALUES (?, ?, ?, ?)"@
}

pub open spec fn map_delete_text() -> Seq<char> {
    "DELETE FROM map WHERE zoom_level = ? AND tile_column = ? AND tile_row = ?"@
}

/// Removes content rows that no coordinate refers to any more.
pub open spec fn images_prune_text() -> Seq<char> {
    "DELETE FROM images WHERE tile_id NOT IN (SELECT tile_id FROM map)"@
}

pub open spec fn coord_params(c: TileCoord) -> Seq<SqlValue> {
    seq![SqlValue::Int(c.zoom as i64), SqlValue::Int(c.x as i64), SqlValue::Int(c.y as i64)]
}

pub open spec fn is_blob(v: SqlValue, b: Seq<u8>) -> bool {
    v matches SqlValue::Blob(d) && d@ == b
}

pub open spec fn is_text(v: SqlValue, t: Seq<char>) -> bool {
    v matches SqlValue::Text(s) && s@ == t
}

fn coord_values(c: TileCoord) -> (r: Vec<SqlValue>)
    ensures
        r@ == coord_params(c),
{
    let r = vec![SqlValue::Int(c.zoom as i64), SqlValue::Int(c.x as i64), SqlValue::Int(c.y as i64)];
    assert(r@ =~= coord_params(c));
    r
}

/// The statements that apply one well-formed record to a file of the given
/// layout. On a deduplicated file a content row is identified by the MD5 of its
/// bytes, so new content reuses the row of identical bytes when there is one;
/// content rows left without a coordinate are removed.
pub fn apply_statements(mbt_type: MbtType, rec: &DiffRecord) -> (r: Vec<Statement>)
    requires
        record_well_formed(*rec),
    ensures
        mbt_type == MbtType::TileTables && rec.op != DiffOp::Delete ==> r@.len() == 1 && r@[0].sql@
            == flat_upsert_text() && r@[0].params@.len() == 4 && r@[0].params@.subrange(0, 3)
            == coord_params(rec.coord) && is_blob(r@[0].params@[3], rec.data.unwrap()@),
        mbt_type == MbtType::TileTables && rec.op == DiffOp::Delete ==> r@.len() == 1 && r@[0].sql@
            == flat_delete_text() && r@[0].params@ == coord_params(rec.coord),
        mbt_type == MbtType::DeDuplicated && rec.op != DiffOp::Delete ==> r@.len() == 3 && r@[0].sql@
            == images_add_text() && r@[0].params@.len() == 3 && is_blob(r@[0].params@[0], rec.data.unwrap()@)
            && is_text(r@[0].params@[1], md5_hex_of(rec.data.unwrap()@)) && is_text(r@[0].params@[2], md5_hex_of(rec.data.unwrap()@))
            && r@[1].sql@ == map_upsert_text() && r@[1].params@.len() == 4 && r@[1].params@.subrange(0, 3)
            == coord_params(rec.coord) && is_text(r@[1].params@[3], md5_hex_of(rec.data.unwrap()@))
            && r@[2].sql@ == images_prune_text()
            && r@[2].params@.len() == 0,
        mbt_type == MbtType::DeDuplicated && rec.op == DiffOp::Delete ==> r@.len() == 2 && r@[0].sql@
            == map_delete_text() && r@[0].params@ == coord_params(rec.coord) && r@[1].sql@
            == images_prune_text() && r@[1].params@.len() == 0,
{
    match (mbt_type, &rec.data) {
        (MbtType::TileTables, Some(data)) => {
            let mut params = coord_values(rec.coord);
            params.push(SqlValue::Blob(copy_bytes(data)));
            proof {
                assert(params@.subrange(0, 3) =~= coord_params(rec.coord));
            }
            vec![Statement { sql: "INSERT OR REPLACE INTO tiles (zoom_level, tile_column, tile_row, tile_data) VALUES (?, ?, ?, ?)".to_owned(), params }]
        },
        (MbtType::TileTables, None) => {
            vec![Statement { sql: "DELETE FROM tiles WHERE zoom_level = ? AND tile_column = ? AND tile_row = ?".to_owned(), params: coord_values(rec.coord) }]
        },
        (MbtType::DeDuplicated, Some(data)) => {
            let id = content_hash(data);
            let add = Statement {
                sql: "INSERT INTO images (tile_data, tile_id) SELECT ?, ? WHERE NOT EXISTS (SELECT 1 FROM images WHERE tile_id = ?)".to_owned(),
                params: vec![SqlValue::Blob(copy_bytes(data)), SqlValue::Text(id.clone()), SqlValue::Text(id.clone())],
            };
            let mut params = coord_values(rec.coord);
            params.push(SqlValue::Text(id));
            proof {
                assert(params@.subrange(0, 3) =~= coord_params(rec.coord));
            }
            let link = Statement {
                sql: "INSERT OR REPLACE INTO map (zoom_level, tile_column, tile_row, tile_id) VALUES (?, ?, ?, ?)".to_owned(),
                params,
            };
            let prune = Statement {
                sql: "DELETE FROM images WHERE tile_id NOT IN (SELECT tile_id FROM map)".to_owned(),
                params: Vec::new(),
            };
            vec![add, link, prune]
        },
        (MbtType::DeDuplicated, None) => {
            let unlink = Statement {
                sql: "DELETE FROM map WHERE zoom_level = ? AND tile_column = ? AND tile_row = ?".to_owned(),
                params: coord_values(rec.coord),
            };
            let prune = Statement {
                sql: "DELETE FROM images WHERE tile_id NOT IN (SELECT tile_id FROM map)".to_owned(),
                params: Vec::new(),
            };
            vec![unlink, prune]
        },
    }
}

} // verus!
