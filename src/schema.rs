use vstd::prelude::*;

use crate::errors::MbtError;
use crate::tile_copier::MbtType;

verus! {

/// A table or view of a file, with the names of its columns.
#[derive(Clone, Debug, PartialEq, Eq)]
pub struct TableInfo {
    pub name: String,
    pub columns: Vec<String>,
}

/// Whether the table named `table` has a column named `col`.
pub open spec fn has_column(tables: Seq<TableInfo>, table: Seq<char>, col: Seq<char>) -> bool {
    exists|i: int, j: int|
        0 <= i < tables.len() && tables[i].name@ == table && 0 <= j < tables[i].columns@.len()
            && (#[trigger] tables[i].columns@[j])@ == col
}

/// The flat layout: a `tiles` table holding the tile bytes per coordinate.
pub open spec fn is_flat(t: Seq<TableInfo>) -> bool {
    &&& has_column(t, "tiles"@, "zoom_level"@)
    &&& has_column(t, "tiles"@, "tile_column"@)
    &&& has_column(t, "tiles"@, "tile_row"@)
    &&& has_column(t, "tiles"@, "tile_data"@)
}

/// The deduplicated layout: a `map` table from coordinates to content ids and
/// an `images` table from content ids to tile bytes.
pub open spec fn is_deduplicated(t: Seq<TableInfo>) -> bool {
    &&& has_column(t, "map"@, "zoom_level"@)
    &&& has_column(t, "map"@, "tile_column"@)
    &&& has_column(t, "map"@, "tile_row"@)
    &&& has_column(t, "map"@, "tile_id"@)
    &&& has_column(t, "images"@, "tile_data"@)
    &&& has_column(t, "images"@, "tile_id"@)
}

/// Whether the table named `table` has a column named `col`.
pub fn table_has_column(tables: &Vec<TableInfo>, table: &str, col: &str) -> (r: bool)
    ensures
        r == has_column(tables@, table@, col@),
{
    let table_name = table.to_owned();
    let col_name = col.to_owned();
    let mut i: usize = 0;
    while i < tables.len()
        invariant
            0 <= i <= tables@.len(),
            table_name@ == table@,
            col_name@ == col@,
            forall|k: int, j: int|
                0 <= k < i && 0 <= j < tables@[k].columns@.len() ==> !(tables@[k].name@ == table@
                    && #[trigger] tables@[k].columns@[j]@ == col@),
        decreases tables@.len() - i,
    {
        if tables[i].name == table_name {
            let columns = &tables[i].columns;
            let mut j: usize = 0;
            while j < columns.len()
                invariant
                    0 <= j <= columns@.len(),
                    0 <= i < tables@.len(),
                    table_name@ == table@,
                    col_name@ == col@,
                    *columns == tables@[i as int].columns,
                    tables@[i as int].name@ == table@,
                    forall|m: int| 0 <= m < j ==> columns@[m]@ != col@,
                decreases columns@.len() - j,
            {
                if columns[j] == col_name {
                    assert(0 <= i < tables@.len() && tables@[i as int].name@ == table@ && 0 <= j
                        < tables@[i as int].columns@.len() && tables@[i as int].columns@[j as int]@ == col@);
                    return true;
                }
                j += 1;
            }
        }
        i += 1;
    }
    false
}

/// Classifies a file by its tables; the deduplicated layout is recognised first.
pub fn detect_type(tables: &Vec<TableInfo>) -> (r: Result<MbtType, MbtError>)
    ensures
        is_deduplicated(tables@) ==> r == Ok::<MbtType, MbtError>(MbtType::DeDuplicated),
        !is_deduplicated(tables@) && is_flat(tables@) ==> r == Ok::<MbtType, MbtError>(MbtType::TileTables),
        !is_deduplicated(tables@) && !is_flat(tables@) ==> r == Err::<MbtType, MbtError>(MbtError::UnsupportedSchema),
{
    if table_has_column(tables, "map", "zoom_level") && table_has_column(tables, "map", "tile_column")
        && table_has_column(tables, "map", "tile_row") && table_has_column(tables, "map", "tile_id")
        && table_has_column(tables, "images", "tile_data") && table_has_column(tables, "images", "tile_id") {
        Ok(MbtType::DeDuplicated)
    } else if table_has_column(tables, "tiles", "zoom_level") && table_has_column(tables, "tiles", "tile_column")
        && table_has_column(tables, "tiles", "tile_row") && table_has_column(tables, "tiles", "tile_data") {
        Ok(MbtType::TileTables)
    } else {
        Err(MbtError::UnsupportedSchema)
    }
}

} // verus!
