use martin_mbtiles::diff::{
    apply_diff, apply_statements, compute_diff, DiffOp, DiffRecord, SqlValue, TileCoord, TileRecord,
};
use martin_mbtiles::errors::MbtError;
use martin_mbtiles::schema::{detect_type, TableInfo};
use martin_mbtiles::tile_copier::{CopyDuplicateMode, MbtType, TileCopier, TileCopierOptions};
use martin_mbtiles::validate::{validate_content, validate_tiles, HashedTile, StoredTile};

fn c(zoom: u8, x: u32, y: u32) -> TileCoord {
    TileCoord { zoom, x, y }
}

fn t(zoom: u8, x: u32, y: u32, data: &[u8]) -> TileRecord {
    TileRecord { coord: c(zoom, x, y), data: data.to_vec() }
}

fn opts() -> TileCopierOptions {
    TileCopierOptions::new("src.mbtiles".to_string(), "dst.mbtiles".to_string())
}

fn sorted(mut v: Vec<TileRecord>) -> Vec<TileRecord> {
    v.sort_by_key(|r| (r.coord.zoom, r.coord.x, r.coord.y));
    v
}

fn table(name: &str, columns: &[&str]) -> TableInfo {
    TableInfo { name: name.to_string(), columns: columns.iter().map(|c| c.to_string()).collect() }
}

#[test]
fn range_filter_builds_between_predicate() {
    let copier = TileCopier::new(opts().min_zoom(Some(2)).max_zoom(Some(5))).unwrap();
    let q = copier.run_query_with_options("INSERT INTO tiles SELECT * FROM sourceDb.tiles");
    assert_eq!(q.sql, "INSERT INTO tiles SELECT * FROM sourceDb.tiles WHERE zoom_level BETWEEN ? AND ?");
    assert_eq!(q.params, vec![2, 5]);
}

#[test]
fn lower_bound_only_builds_ge_predicate() {
    let copier = TileCopier::new(opts().min_zoom(Some(4))).unwrap();
    let q = copier.run_query_with_options("SELECT 1");
    assert_eq!(q.sql, "SELECT 1 WHERE zoom_level >= ?");
    assert_eq!(q.params, vec![4]);
}

#[test]
fn upper_bound_only_builds_le_predicate() {
    let copier = TileCopier::new(opts().max_zoom(Some(9))).unwrap();
    let q = copier.run_query_with_options("SELECT 1");
    assert_eq!(q.sql, "SELECT 1 WHERE zoom_level <= ?");
    assert_eq!(q.params, vec![9]);
}

#[test]
fn no_filter_leaves_query_unchanged() {
    let copier = TileCopier::new(opts()).unwrap();
    let q = copier.run_query_with_options("SELECT 1");
    assert_eq!(q.sql, "SELECT 1");
    assert!(q.params.is_empty());
}

#[test]
fn zoom_set_builds_in_predicate_in_any_order() {
    let a = TileCopier::new(opts().zoom_levels(vec![3, 7, 1])).unwrap();
    let b = TileCopier::new(opts().zoom_levels(vec![1, 3, 7, 3])).unwrap();
    let qa = a.run_query_with_options("SELECT 1");
    let qb = b.run_query_with_options("SELECT 1");
    assert_eq!(qa.sql, "SELECT 1 WHERE zoom_level IN (?,?,?)");
    assert_eq!(qa.params, vec![1, 3, 7]);
    assert_eq!(qa, qb);
}

#[test]
fn zooms_adds_to_existing_levels() {
    let o = opts().zooms(vec![5, 2]).zooms(vec![2, 9]);
    assert_eq!(o.zooms, vec![2, 5, 9]);
}

#[test]
fn zoom_set_with_bound_is_a_conflict() {
    let r = TileCopier::new(opts().zoom_levels(vec![3, 7, 1]).min_zoom(Some(1)));
    assert_eq!(r, Err(MbtError::ArgumentConflict));
}

#[test]
fn inverted_range_is_rejected() {
    let r = TileCopier::new(opts().min_zoom(Some(6)).max_zoom(Some(2)));
    assert_eq!(r, Err(MbtError::InvalidZoomRange));
}

#[test]
fn non_empty_target_is_rejected() {
    let copier = TileCopier::new(opts()).unwrap();
    assert_eq!(copier.check_target_empty(0), Ok(()));
    assert_eq!(
        copier.check_target_empty(3),
        Err(MbtError::NonEmptyTargetFile("dst.mbtiles".to_string()))
    );
}

#[test]
fn deduplicated_copy_filters_map_and_restricts_images() {
    let copier = TileCopier::new(opts().max_zoom(Some(3))).unwrap();
    let qs = copier.copy_tiles(MbtType::DeDuplicated);
    assert_eq!(qs.len(), 2);
    assert_eq!(qs[0].sql, "INSERT INTO map SELECT * FROM sourceDb.map WHERE zoom_level <= ?");
    assert_eq!(qs[0].params, vec![3]);
    assert_eq!(
        qs[1].sql,
        "INSERT INTO images SELECT images.tile_data, images.tile_id FROM sourceDb.images WHERE images.tile_id IN (SELECT tile_id FROM map)"
    );
    assert!(qs[1].params.is_empty());
}

#[test]
fn flat_copy_is_one_filtered_statement() {
    let copier = TileCopier::new(opts().zoom_levels(vec![0])).unwrap();
    let qs = copier.copy_tiles(MbtType::TileTables);
    assert_eq!(qs.len(), 1);
    assert_eq!(qs[0].sql, "INSERT INTO tiles SELECT * FROM sourceDb.tiles WHERE zoom_level IN (?)");
    assert_eq!(qs[0].params, vec![0]);
}

#[test]
fn schema_query_names_only_the_layout_tables() {
    let copier = TileCopier::new(opts()).unwrap();
    assert_eq!(
        copier.schema_query(MbtType::TileTables),
        "SELECT sql FROM sourceDb.sqlite_schema WHERE tbl_name IN ('metadata', 'tiles') AND sql IS NOT NULL"
    );
    assert_eq!(
        copier.schema_query(MbtType::DeDuplicated),
        "SELECT sql FROM sourceDb.sqlite_schema WHERE tbl_name IN ('metadata', 'map', 'images') AND sql IS NOT NULL"
    );
}

#[test]
fn detects_flat_layout() {
    let tables = vec![
        table("metadata", &["name", "value"]),
        table("tiles", &["zoom_level", "tile_column", "tile_row", "tile_data"]),
    ];
    assert_eq!(detect_type(&tables), Ok(MbtType::TileTables));
}

#[test]
fn detects_deduplicated_layout_first() {
    let tables = vec![
        table("map", &["zoom_level", "tile_column", "tile_row", "tile_id"]),
        table("images", &["tile_data", "tile_id"]),
        table("tiles", &["zoom_level", "tile_column", "tile_row", "tile_data"]),
    ];
    assert_eq!(detect_type(&tables), Ok(MbtType::DeDuplicated));
}

#[test]
fn unknown_layout_is_unsupported() {
    let tables = vec![table("tiles", &["zoom_level", "tile_column", "tile_row"])];
    assert_eq!(detect_type(&tables), Err(MbtError::UnsupportedSchema));
    assert_eq!(detect_type(&Vec::new()), Err(MbtError::UnsupportedSchema));
}

#[test]
fn diff_holds_insert_update_delete() {
    let a = vec![t(1, 0, 0, b"same"), t(1, 0, 1, b"old"), t(2, 0, 0, b"gone")];
    let b = vec![t(1, 0, 0, b"same"), t(1, 0, 1, b"new"), t(3, 1, 1, b"added")];
    let d = compute_diff(&a, &b, CopyDuplicateMode::Override).unwrap();
    assert_eq!(
        d,
        vec![
            DiffRecord { coord: c(1, 0, 1), op: DiffOp::Update, data: Some(b"new".to_vec()) },
            DiffRecord { coord: c(3, 1, 1), op: DiffOp::Insert, data: Some(b"added".to_vec()) },
            DiffRecord { coord: c(2, 0, 0), op: DiffOp::Delete, data: None },
        ]
    );
}

#[test]
fn diff_round_trip_reproduces_target() {
    let a = vec![t(1, 0, 0, b"same"), t(1, 0, 1, b"old"), t(2, 0, 0, b"gone")];
    let b = vec![t(3, 1, 1, b"added"), t(1, 0, 1, b"new"), t(1, 0, 0, b"same")];
    let d = compute_diff(&a, &b, CopyDuplicateMode::Override).unwrap();
    let mut target = a.clone();
    apply_diff(&mut target, &d).unwrap();
    assert_eq!(sorted(target), sorted(b));
}

#[test]
fn diff_of_equal_snapshots_is_empty() {
    let a = vec![t(0, 0, 0, b"x"), t(1, 1, 1, b"y")];
    assert!(compute_diff(&a, &a, CopyDuplicateMode::Abort).unwrap().is_empty());
    assert!(compute_diff(&Vec::new(), &Vec::new(), CopyDuplicateMode::Override).unwrap().is_empty());
}

#[test]
fn abort_mode_fails_on_conflicting_content() {
    let a = vec![t(4, 2, 3, b"old")];
    let b = vec![t(4, 2, 3, b"new")];
    assert_eq!(
        compute_diff(&a, &b, CopyDuplicateMode::Abort),
        Err(MbtError::DuplicateTileError(4, 2, 3))
    );
}

#[test]
fn ignore_mode_keeps_old_content() {
    let a = vec![t(4, 2, 3, b"old")];
    let b = vec![t(4, 2, 3, b"new"), t(5, 0, 0, b"more")];
    let d = compute_diff(&a, &b, CopyDuplicateMode::Ignore).unwrap();
    let mut target = a.clone();
    apply_diff(&mut target, &d).unwrap();
    assert_eq!(sorted(target), vec![t(4, 2, 3, b"old"), t(5, 0, 0, b"more")]);
}

#[test]
fn override_mode_takes_new_content() {
    let a = vec![t(4, 2, 3, b"old")];
    let b = vec![t(4, 2, 3, b"new")];
    let d = compute_diff(&a, &b, CopyDuplicateMode::Override).unwrap();
    let mut target = a.clone();
    apply_diff(&mut target, &d).unwrap();
    assert_eq!(target, vec![t(4, 2, 3, b"new")]);
}

#[test]
fn malformed_record_leaves_target_unchanged() {
    let a = vec![t(1, 1, 1, b"keep")];
    let d = vec![
        DiffRecord { coord: c(1, 1, 1), op: DiffOp::Delete, data: None },
        DiffRecord { coord: c(2, 2, 2), op: DiffOp::Insert, data: None },
    ];
    let mut target = a.clone();
    assert_eq!(apply_diff(&mut target, &d), Err(MbtError::SchemaMismatch));
    assert_eq!(target, a);
}

#[test]
fn delete_of_absent_tile_is_harmless() {
    let a = vec![t(1, 1, 1, b"keep")];
    let d = vec![DiffRecord { coord: c(9, 9, 9), op: DiffOp::Delete, data: None }];
    let mut target = a.clone();
    apply_diff(&mut target, &d).unwrap();
    assert_eq!(target, a);
}

fn row(zoom: u8, stored: Option<&str>, computed: &str) -> HashedTile {
    HashedTile { coord: c(zoom, 0, 0), stored_hash: stored.map(|s| s.to_string()), computed_hash: computed.to_string() }
}

#[test]
fn validate_reports_exactly_the_corrupted_tile() {
    let rows = vec![row(0, Some("AA"), "AA"), row(1, Some("BB"), "CC"), row(2, Some("DD"), "DD")];
    assert_eq!(validate_tiles(&rows), vec![c(1, 0, 0)]);
}

#[test]
fn validate_without_hashes_reports_nothing() {
    let rows = vec![row(0, None, "AA"), row(1, None, "CC")];
    assert!(validate_tiles(&rows).is_empty());
}

fn stored(zoom: u8, hash: Option<&str>, data: &[u8]) -> StoredTile {
    StoredTile { coord: c(zoom, 0, 0), stored_hash: hash.map(|s| s.to_string()), data: data.to_vec() }
}

#[test]
fn validate_content_hashes_the_bytes() {
    let rows = vec![
        stored(0, Some("900150983CD24FB0D6963F7D28E17F72"), b"abc"),
        stored(1, Some("D41D8CD98F00B204E9800998ECF8427E"), b""),
        stored(2, Some("900150983CD24FB0D6963F7D28E17F72"), b"abd"),
        stored(3, None, b"anything"),
    ];
    assert_eq!(validate_content(&rows), vec![c(2, 0, 0)]);
}

#[test]
fn flat_apply_statements() {
    let up = DiffRecord { coord: c(3, 4, 5), op: DiffOp::Update, data: Some(b"t".to_vec()) };
    let st = apply_statements(MbtType::TileTables, &up);
    assert_eq!(st.len(), 1);
    assert_eq!(st[0].sql, "INSERT OR REPLACE INTO tiles (zoom_level, tile_column, tile_row, tile_data) VALUES (?, ?, ?, ?)");
    assert_eq!(
        st[0].params,
        vec![SqlValue::Int(3), SqlValue::Int(4), SqlValue::Int(5), SqlValue::Blob(b"t".to_vec())]
    );
    let del = DiffRecord { coord: c(3, 4, 5), op: DiffOp::Delete, data: None };
    let st = apply_statements(MbtType::TileTables, &del);
    assert_eq!(st[0].sql, "DELETE FROM tiles WHERE zoom_level = ? AND tile_column = ? AND tile_row = ?");
    assert_eq!(st[0].params, vec![SqlValue::Int(3), SqlValue::Int(4), SqlValue::Int(5)]);
}

#[test]
fn deduplicated_apply_statements_use_content_hash_ids() {
    let ins = DiffRecord { coord: c(1, 2, 3), op: DiffOp::Insert, data: Some(b"abc".to_vec()) };
    let st = apply_statements(MbtType::DeDuplicated, &ins);
    assert_eq!(st.len(), 3);
    let id = SqlValue::Text("900150983CD24FB0D6963F7D28E17F72".to_string());
    assert_eq!(st[0].params, vec![SqlValue::Blob(b"abc".to_vec()), id.clone(), id.clone()]);
    assert_eq!(st[1].params, vec![SqlValue::Int(1), SqlValue::Int(2), SqlValue::Int(3), id]);
    assert_eq!(st[2].sql, "DELETE FROM images WHERE tile_id NOT IN (SELECT tile_id FROM map)");
    let del = DiffRecord { coord: c(1, 2, 3), op: DiffOp::Delete, data: None };
    let st = apply_statements(MbtType::DeDuplicated, &del);
    assert_eq!(st.len(), 2);
    assert_eq!(st[0].sql, "DELETE FROM map WHERE zoom_level = ? AND tile_column = ? AND tile_row = ?");
}
