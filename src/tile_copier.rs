use vstd::prelude::*;
use vstd::string::StringExecFns;

use crate::errors::MbtError;

verus! {

/// How a coordinate present in both snapshots with differing content is resolved.
#[derive(Clone, Copy, Debug, PartialEq, Eq, Structural)]
pub enum CopyDuplicateMode {
    /// The newer snapshot's content wins.
    Override,
    /// The older snapshot's content is kept.
    Ignore,
    /// The whole operation fails.
    Abort,
}

/// Every element is smaller than the one after it.
pub open spec fn strictly_ascending(s: Seq<u8>) -> bool {
    forall|i: int, j: int| 0 <= i < j < s.len() ==> s[i] < s[j]
}

/// Options of a copy: the two files, the zoom filter, the diff target and the
/// duplicate policy.
///
/// The explicit zoom levels are kept as a strictly ascending sequence, so two
/// option values that select the same levels compare equal.
#[derive(Clone, Debug, PartialEq, Eq)]
pub struct TileCopierOptions {
    pub src_file: String,
    pub dst_file: String,
    pub zooms: Vec<u8>,
    pub min_zoom: Option<u8>,
    pub max_zoom: Option<u8>,
    pub diff_with_file: Option<String>,
    pub on_duplicate: CopyDuplicateMode,
    pub verbose: bool,
}

impl TileCopierOptions {
    pub open spec fn wf(&self) -> bool {
        strictly_ascending(self.zooms@)
    }

    /// The set of explicitly requested zoom levels.
    pub open spec fn zoom_set(&self) -> Set<u8> {
        self.zooms@.to_set()
    }

    pub fn new(src_file: String, dst_file: String) -> (r: Self)
        ensures
            r.wf(),
            r.src_file@ == src_file@,
            r.dst_file@ == dst_file@,
            r.zooms@.len() == 0,
            r.min_zoom.is_none(),
            r.max_zoom.is_none(),
            r.diff_with_file.is_none(),
            r.on_duplicate == CopyDuplicateMode::Override,
            !r.verbose,
    {
        TileCopierOptions {
            src_file,
            dst_file,
            zooms: Vec::new(),
            min_zoom: None,
            max_zoom: None,
            diff_with_file: None,
            on_duplicate: CopyDuplicateMode::Override,
            verbose: false,
        }
    }

    /// Adds the given levels to the explicitly requested ones.
    pub fn zooms(self, zooms: Vec<u8>) -> (r: Self)
        requires
            self.wf(),
        ensures
            r.wf(),
            r.zoom_set() == self.zoom_set().union(zooms@.to_set()),
            r.src_file == self.src_file,
            r.dst_file == self.dst_file,
            r.min_zoom == self.min_zoom,
            r.max_zoom == self.max_zoom,
            r.diff_with_file == self.diff_with_file,
            r.on_duplicate == self.on_duplicate,
            r.verbose == self.verbose,
    {
        let ghost s0 = self;
        let mut r = self;
        let mut i: usize = 0;
        while i < zooms.len()
            invariant
                0 <= i <= zooms@.len(),
                r.wf(),
                r.zoom_set() == s0.zoom_set().union(zooms@.subrange(0, i as int).to_set()),
                r.src_file == s0.src_file,
                r.dst_file == s0.dst_file,
                r.min_zoom == s0.min_zoom,
                r.max_zoom == s0.max_zoom,
                r.diff_with_file == s0.diff_with_file,
                r.on_duplicate == s0.on_duplicate,
                r.verbose == s0.verbose,
            decreases zooms@.len() - i,
        {
            insert_ascending(&mut r.zooms, zooms[i]);
            proof {
                let a = zooms@.subrange(0, i as int);
                let b = zooms@.subrange(0, i + 1);
                assert forall|x: u8| b.contains(x) <==> (a.contains(x) || x == zooms@[i as int]) by {
                    if b.contains(x) {
                        let k = choose|k: int| 0 <= k < b.len() && b[k] == x;
                        if k < a.len() {
                            assert(a[k] == x);
                        }
                    }
                    if a.contains(x) {
                        let k = choose|k: int| 0 <= k < a.len() && a[k] == x;
                        assert(b[k] == x);
                    }
                    if x == zooms@[i as int] {
                        assert(b[i as int] == x);
                    }
                }
                assert(r.zoom_set() =~= s0.zoom_set().union(b.to_set()));
            }
            i += 1;
        }
        proof {
            assert(zooms@.subrange(0, zooms@.len() as int) =~= zooms@);
        }
        r
    }

    /// Replaces the explicitly requested levels by the given ones; order and
    /// repetitions in `zooms` do not matter.
    pub fn zoom_levels(self, zooms: Vec<u8>) -> (r: Self)
        ensures
            r.wf(),
            r.zoom_set() == zooms@.to_set(),
            r.src_file == self.src_file,
            r.dst_file == self.dst_file,
            r.min_zoom == self.min_zoom,
            r.max_zoom == self.max_zoom,
            r.diff_with_file == self.diff_with_file,
            r.on_duplicate == self.on_duplicate,
            r.verbose == self.verbose,
    {
        let cleared = TileCopierOptions { zooms: Vec::new(), ..self };
        proof {
            assert(cleared.zoom_set() =~= Set::<u8>::empty());
        }
        let r = cleared.zooms(zooms);
        proof {
            assert(r.zoom_set() =~= zooms@.to_set());
        }
        r
    }

    pub fn min_zoom(self, min_zoom: Option<u8>) -> (r: Self)
        ensures
            r == (TileCopierOptions { min_zoom, ..self }),
    {
        TileCopierOptions { min_zoom, ..self }
    }

    pub fn max_zoom(self, max_zoom: Option<u8>) -> (r: Self)
        ensures
            r == (TileCopierOptions { max_zoom, ..self }),
    {
        TileCopierOptions { max_zoom, ..self }
    }

    pub fn diff_with_file(self, diff_with_file: String) -> (r: Self)
        ensures
            r == (TileCopierOptions { diff_with_file: Some(diff_with_file), ..self }),
    {
        TileCopierOptions { diff_with_file: Some(diff_with_file), ..self }
    }

    pub fn on_duplicate(self, on_duplicate: CopyDuplicateMode) -> (r: Self)
        ensures
            r == (TileCopierOptions { on_duplicate, ..self }),
    {
        TileCopierOptions { on_duplicate, ..self }
    }

    pub fn verbose(self, verbose: bool) -> (r: Self)
        ensures
            r == (TileCopierOptions { verbose, ..self }),
    {
        TileCopierOptions { verbose, ..self }
    }

    /// Whether the options name an explicit set of zoom levels together with a bound.
    pub open spec fn has_conflict(&self) -> bool {
        self.zooms@.len() > 0 && (self.min_zoom.is_some() || self.max_zoom.is_some())
    }

    /// Whether both bounds are given and the lower one exceeds the upper one.
    pub open spec fn has_inverted_range(&self) -> bool {
        self.min_zoom.is_some() && self.max_zoom.is_some() && self.min_zoom.unwrap()
            > self.max_zoom.unwrap()
    }

    /// Whether a tile at zoom `z` is selected: the explicit set takes precedence
    /// over the range, and without either every zoom is selected.
    pub open spec fn selects(&self, z: u8) -> bool {
        if self.zooms@.len() > 0 {
            self.zoom_set().contains(z)
        } else {
            (self.min_zoom.is_none() || self.min_zoom.unwrap() <= z) && (self.max_zoom.is_none()
                || z <= self.max_zoom.unwrap())
        }
    }
}

/// Inserts `z` into a strictly ascending sequence, keeping it so.
fn insert_ascending(zooms: &mut Vec<u8>, z: u8)
    requires
        strictly_ascending(old(zooms)@),
    ensures
        strictly_ascending(final(zooms)@),
        final(zooms)@.to_set() == old(zooms)@.to_set().insert(z),
{
    let mut i: usize = 0;
    while i < zooms.len() && zooms[i] < z
        invariant
            0 <= i <= zooms@.len(),
            forall|k: int| 0 <= k < i ==> zooms@[k] < z,
        decreases zooms@.len() - i,
    {
        i += 1;
    }
    if i < zooms.len() && zooms[i] == z {
        proof {
            assert(zooms@.to_set().insert(z) =~= zooms@.to_set()) by {
                assert(zooms@.contains(z)) by {
                    assert(zooms@[i as int] == z);
                }
            }
        }
        return;
    }
    let ghost before = zooms@;
    zooms.insert(i, z);
    proof {
        assert(zooms@ =~= before.insert(i as int, z));
        assert forall|a: int, b: int| 0 <= a < b < zooms@.len() implies zooms@[a] < zooms@[b] by {
            if b < i {
            } else if b == i {
            } else if a < i {
            } else if a == i {
                assert(before[i as int] > z);
                assert(before[i as int] <= before[b - 1]);
            } else {
            }
        }
        assert forall|x: u8| zooms@.contains(x) <==> before.to_set().insert(z).contains(x) by {
            if zooms@.contains(x) {
                let k = choose|k: int| 0 <= k < zooms@.len() && zooms@[k] == x;
                if k < i {
                    assert(before[k] == x);
                } else if k > i {
                    assert(before[k - 1] == x);
                }
            }
            if before.contains(x) {
                let k = choose|k: int| 0 <= k < before.len() && before[k] == x;
                if k < i {
                    assert(zooms@[k] == x);
                } else {
                    assert(zooms@[k + 1] == x);
                }
            }
            if x == z {
                assert(zooms@[i as int] == z);
            }
        }
        assert(zooms@.to_set() =~= before.to_set().insert(z));
    }
}

/// A query together with the zoom values bound to its `?` placeholders, in order.
#[derive(Clone, Debug, PartialEq, Eq)]
pub struct FilteredQuery {
    pub sql: String,
    pub params: Vec<u8>,
}

/// `n` placeholders separated by commas.
pub open spec fn placeholders(n: nat) -> Seq<char>
    decreases n,
{
    if n == 0 {
        Seq::empty()
    } else if n == 1 {
        "?"@
    } else {
        placeholders((n - 1) as nat) + ",?"@
    }
}

/// The predicate appended to a statement for the given options.
pub open spec fn filter_clause(o: TileCopierOptions) -> Seq<char> {
    if o.zooms@.len() > 0 {
        " WHERE zoom_level IN ("@ + placeholders(o.zooms@.len()) + ")"@
    } else if o.min_zoom.is_some() && o.max_zoom.is_some() {
        " WHERE zoom_level BETWEEN ? AND ?"@
    } else if o.min_zoom.is_some() {
        " WHERE zoom_level >= ?"@
    } else if o.max_zoom.is_some() {
        " WHERE zoom_level <= ?"@
    } else {
        Seq::empty()
    }
}

/// The values bound to the predicate's placeholders, in order.
pub open spec fn filter_params(o: TileCopierOptions) -> Seq<u8> {
    if o.zooms@.len() > 0 {
        o.zooms@
    } else if o.min_zoom.is_some() && o.max_zoom.is_some() {
        seq![o.min_zoom.unwrap(), o.max_zoom.unwrap()]
    } else if o.min_zoom.is_some() {
        seq![o.min_zoom.unwrap()]
    } else if o.max_zoom.is_some() {
        seq![o.max_zoom.unwrap()]
    } else {
        Seq::empty()
    }
}

/// Appends the predicate for `o` to `sql`.
fn append_filter(sql: &mut String, o: &TileCopierOptions)
    ensures
        final(sql)@ == old(sql)@ + filter_clause(*o),
{
    if o.zooms.len() > 0 {
        sql.append(" WHERE zoom_level IN (");
        let ghost start = sql@;
        let mut k: usize = 0;
        while k < o.zooms.len()
            invariant
                0 <= k <= o.zooms@.len(),
                sql@ == start + placeholders(k as nat),
            decreases o.zooms@.len() - k,
        {
            if k == 0 {
                sql.append("?");
                proof {
                    assert(start + placeholders(0) =~= start);
                }
            } else {
                sql.append(",?");
                proof {
                    assert(placeholders((k + 1) as nat) == placeholders(k as nat) + ",?"@);
                    assert(sql@ =~= start + placeholders((k + 1) as nat));
                }
            }
            k += 1;
        }
        sql.append(")");
        proof {
            assert(sql@ =~= old(sql)@ + filter_clause(*o));
        }
    } else if o.min_zoom.is_some() && o.max_zoom.is_some() {
        sql.append(" WHERE zoom_level BETWEEN ? AND ?");
    } else if o.min_zoom.is_some() {
        sql.append(" WHERE zoom_level >= ?");
    } else if o.max_zoom.is_some() {
        sql.append(" WHERE zoom_level <= ?");
    } else {
        proof {
            assert(sql@ =~= old(sql)@ + filter_clause(*o));
        }
    }
}

/// Whether the predicate `filter_clause(o)`, with `filter_params(o)` bound to
/// its placeholders, holds of a row at zoom `z`.
pub open spec fn predicate_accepts(o: TileCopierOptions, z: u8) -> bool {
    let p = filter_params(o);
    if o.zooms@.len() > 0 {
        p.contains(z)
    } else if o.min_zoom.is_some() && o.max_zoom.is_some() {
        p[0] <= z <= p[1]
    } else if o.min_zoom.is_some() {
        z >= p[0]
    } else if o.max_zoom.is_some() {
        z <= p[0]
    } else {
        true
    }
}

/// The generated predicate accepts exactly the zoom levels that the options select.
pub proof fn lemma_predicate_matches_selection(o: TileCopierOptions, z: u8)
    ensures
        predicate_accepts(o, z) == o.selects(z),
{
}

/// With both bounds given and in order, the copy accepts exactly the zoom
/// levels from the lower bound to the upper one, inclusive.
pub proof fn lemma_range_copy(o: TileCopierOptions, min: u8, max: u8, z: u8)
    requires
        o.zooms@.len() == 0,
        o.min_zoom == Some(min),
        o.max_zoom == Some(max),
        min <= max,
    ensures
        predicate_accepts(o, z) <==> min <= z <= max,
{
}

/// Two strictly ascending sequences with the same elements are equal.
pub proof fn lemma_ascending_set_determines_seq(s: Seq<u8>, t: Seq<u8>)
    requires
        strictly_ascending(s),
        strictly_ascending(t),
        s.to_set() == t.to_set(),
    ensures
        s == t,
    decreases s.len(),
{
    if s.len() == 0 {
        if t.len() > 0 {
            assert(t.to_set().contains(t[0]));
        }
        assert(t.len() == 0);
        assert(s =~= t);
    } else {
        assert(s.to_set().contains(s[0]));
        assert(t.contains(s[0]));
        assert(t.len() > 0);
        assert(t.to_set().contains(t[0]));
        assert(s.contains(t[0]));
        let i = choose|i: int| 0 <= i < t.len() && t[i] == s[0];
        let j = choose|j: int| 0 <= j < s.len() && s[j] == t[0];
        assert(s[0] <= s[j]);
        assert(t[0] <= t[i]);
        assert(s[0] == t[0]);
        let s1 = s.drop_first();
        let t1 = t.drop_first();
        assert forall|x: u8| s1.to_set().contains(x) <==> t1.to_set().contains(x) by {
            if s1.contains(x) {
                let k = choose|k: int| 0 <= k < s1.len() && s1[k] == x;
                assert(s[k + 1] == x);
                assert(s.contains(x));
                assert(s.to_set().contains(x));
                assert(t.contains(x));
                let m = choose|m: int| 0 <= m < t.len() && t[m] == x;
                assert(m != 0);
                assert(t1[m - 1] == x);
            }
            if t1.contains(x) {
                let k = choose|k: int| 0 <= k < t1.len() && t1[k] == x;
                assert(t[k + 1] == x);
                assert(t.contains(x));
                assert(t.to_set().contains(x));
                assert(s.contains(x));
                let m = choose|m: int| 0 <= m < s.len() && s[m] == x;
                assert(m != 0);
                assert(s1[m - 1] == x);
            }
        }
        assert(s1.to_set() =~= t1.to_set());
        lemma_ascending_set_determines_seq(s1, t1);
        assert(s.len() == t.len());
        assert forall|k: int| 0 <= k < s.len() implies s[k] == t[k] by {
            if k > 0 {
                assert(s[k] == s1[k - 1] && t[k] == t1[k - 1]);
            }
        }
        assert(s =~= t);
    }
}

/// Options that name the same set of zoom levels, in whatever order and with
/// whatever repetitions they were given, and agree on the bounds produce the
/// same predicate and parameters. Where levels are named they take precedence,
/// and the predicate accepts exactly those levels.
pub proof fn lemma_zoom_set_order_irrelevant(o1: TileCopierOptions, o2: TileCopierOptions, z: u8)
    requires
        o1.wf(),
        o2.wf(),
        o1.zoom_set() == o2.zoom_set(),
        o1.min_zoom == o2.min_zoom,
        o1.max_zoom == o2.max_zoom,
    ensures
        o1.zooms@ == o2.zooms@,
        filter_clause(o1) == filter_clause(o2),
        filter_params(o1) == filter_params(o2),
        predicate_accepts(o1, z) == predicate_accepts(o2, z),
        o1.zooms@.len() > 0 ==> (predicate_accepts(o1, z) <==> o1.zoom_set().contains(z)),
{
    lemma_ascending_set_determines_seq(o1.zooms@, o2.zooms@);
}

/// Adding the same levels, in any order and with any repetitions, to the same
/// options gives the same options.
pub proof fn lemma_zooms_order_irrelevant(base: TileCopierOptions, o1: TileCopierOptions, o2: TileCopierOptions, v1: Seq<u8>, v2: Seq<u8>)
    requires
        base.wf(),
        v1.to_set() == v2.to_set(),
        o1.wf(),
        o2.wf(),
        o1.zoom_set() == base.zoom_set().union(v1.to_set()),
        o2.zoom_set() == base.zoom_set().union(v2.to_set()),
        o1.min_zoom == base.min_zoom && o2.min_zoom == base.min_zoom,
        o1.max_zoom == base.max_zoom && o2.max_zoom == base.max_zoom,
    ensures
        o1.zooms@ == o2.zooms@,
        filter_clause(o1) == filter_clause(o2),
        filter_params(o1) == filter_params(o2),
{
    lemma_zoom_set_order_irrelevant(o1, o2, 0);
}

/// The physical layout of a tile-storage file.
#[derive(Clone, Copy, Debug, PartialEq, Eq, Structural)]
pub enum MbtType {
    /// One `tiles` row per coordinate, holding the tile bytes.
    TileTables,
    /// A `map` table from coordinates to content ids and an `images` table from
    /// content ids to tile bytes.
    DeDuplicated,
}

/// The query that lists the DDL of the tables a file of the given layout needs.
pub open spec fn schema_query_text(t: MbtType) -> Seq<char> {
    match t {
        MbtType::TileTables =>
            "SELECT sql FROM sourceDb.sqlite_schema WHERE tbl_name IN ('metadata', 'tiles') AND sql IS NOT NULL"@,
        MbtType::DeDuplicated =>
            "SELECT sql FROM sourceDb.sqlite_schema WHERE tbl_name IN ('metadata', 'map', 'images') AND sql IS NOT NULL"@,
    }
}

pub open spec fn flat_copy_text() -> Seq<char> {
    "INSERT INTO tiles SELECT * FROM sourceDb.tiles"@
}

pub open spec fn map_copy_text() -> Seq<char> {
    "INSERT INTO map SELECT * FROM sourceDb.map"@
}

/// Copies exactly the content rows that the already copied `map` rows refer to.
pub open spec fn images_copy_text() -> Seq<char> {
    "INSERT INTO images SELECT images.tile_data, images.tile_id FROM sourceDb.images WHERE images.tile_id IN (SELECT tile_id FROM map)"@
}

/// A copy job whose options have been checked: no explicit zoom set together
/// with a bound, and no inverted range.
#[derive(Clone, Debug, PartialEq, Eq)]
pub struct TileCopier {
    pub options: TileCopierOptions,
}

impl TileCopier {
    pub open spec fn wf(&self) -> bool {
        self.options.wf() && !self.options.has_conflict() && !self.options.has_inverted_range()
    }

    /// Checks the options; fails before any file is touched.
    pub fn new(options: TileCopierOptions) -> (r: Result<TileCopier, MbtError>)
        requires
            options.wf(),
        ensures
            options.has_conflict() ==> r == Err::<TileCopier, MbtError>(MbtError::ArgumentConflict),
            !options.has_conflict() && options.has_inverted_range() ==> r == Err::<TileCopier, MbtError>(MbtError::InvalidZoomRange),
            !options.has_conflict() && !options.has_inverted_range() ==> (r matches Ok(c) && c.options == options && c.wf()),
    {
        if options.zooms.len() > 0 && (options.min_zoom.is_some() || options.max_zoom.is_some()) {
            return Err(MbtError::ArgumentConflict);
        }
        match (options.min_zoom, options.max_zoom) {
            (Some(min), Some(max)) => {
                if min > max {
                    return Err(MbtError::InvalidZoomRange);
                }
            },
            _ => {},
        }
        Ok(TileCopier { options })
    }

    /// Fails with `NonEmptyTargetFile` when the destination already holds
    /// `schema_objects` schema objects, more than none.
    pub fn check_target_empty(&self, schema_objects: usize) -> (r: Result<(), MbtError>)
        ensures
            schema_objects == 0 <==> r is Ok,
            schema_objects > 0 ==> (r matches Err(MbtError::NonEmptyTargetFile(p)) && p@ == self.options.dst_file@),
    {
        if schema_objects > 0 {
            Err(MbtError::NonEmptyTargetFile(self.options.dst_file.clone()))
        } else {
            Ok(())
        }
    }

    /// `sql` restricted by the zoom filter, with the values to bind.
    pub fn run_query_with_options(&self, sql: &str) -> (r: FilteredQuery)
        ensures
            r.sql@ == sql@ + filter_clause(self.options),
            r.params@ == filter_params(self.options),
    {
        let mut text = sql.to_owned();
        append_filter(&mut text, &self.options);
        let params = if self.options.zooms.len() > 0 {
            self.options.zooms.clone()
        } else {
            match (self.options.min_zoom, self.options.max_zoom) {
                (Some(min), Some(max)) => vec![min, max],
                (Some(min), None) => vec![min],
                (None, Some(max)) => vec![max],
                (None, None) => Vec::new(),
            }
        };
        proof {
            assert(params@ =~= filter_params(self.options));
        }
        FilteredQuery { sql: text, params }
    }

    /// The query listing the DDL that the destination needs.
    pub fn schema_query(&self, mbt_type: MbtType) -> (r: String)
        ensures
            r@ == schema_query_text(mbt_type),
    {
        match mbt_type {
            MbtType::TileTables =>
                "SELECT sql FROM sourceDb.sqlite_schema WHERE tbl_name IN ('metadata', 'tiles') AND sql IS NOT NULL".to_owned(),
            MbtType::DeDuplicated =>
                "SELECT sql FROM sourceDb.sqlite_schema WHERE tbl_name IN ('metadata', 'map', 'images') AND sql IS NOT NULL".to_owned(),
        }
    }

    /// The statements that copy the flat tile table.
    pub fn copy_tile_tables(&self) -> (r: Vec<FilteredQuery>)
        ensures
            r@.len() == 1,
            r@[0].sql@ == flat_copy_text() + filter_clause(self.options),
            r@[0].params@ == filter_params(self.options),
    {
        vec![self.run_query_with_options("INSERT INTO tiles SELECT * FROM sourceDb.tiles")]
    }

    /// The statements that copy a deduplicated file: the filter applies to the
    /// coordinate table, then only the content it still refers to is copied.
    pub fn copy_deduplicated(&self) -> (r: Vec<FilteredQuery>)
        ensures
            r@.len() == 2,
            r@[0].sql@ == map_copy_text() + filter_clause(self.options),
            r@[0].params@ == filter_params(self.options),
            r@[1].sql@ == images_copy_text(),
            r@[1].params@.len() == 0,
    {
        let map = self.run_query_with_options("INSERT INTO map SELECT * FROM sourceDb.map");
        let images = FilteredQuery {
            sql: "INSERT INTO images SELECT images.tile_data, images.tile_id FROM sourceDb.images WHERE images.tile_id IN (SELECT tile_id FROM map)".to_owned(),
            params: Vec::new(),
        };
        vec![map, images]
    }

    /// The tile-copying statements for a source of the given layout.
    pub fn copy_tiles(&self, mbt_type: MbtType) -> (r: Vec<FilteredQuery>)
        ensures
            mbt_type == MbtType::TileTables ==> r@.len() == 1 && r@[0].sql@ == flat_copy_text()
                + filter_clause(self.options) && r@[0].params@ == filter_params(self.options),
            mbt_type == MbtType::DeDuplicated ==> r@.len() == 2 && r@[0].sql@ == map_copy_text()
                + filter_clause(self.options) && r@[0].params@ == filter_params(self.options)
                && r@[1].sql@ == images_copy_text() && r@[1].params@.len() == 0,
    {
        match mbt_type {
            MbtType::TileTables => self.copy_tile_tables(),
            MbtType::DeDuplicated => self.copy_deduplicated(),
        }
    }
}

} // verus!
