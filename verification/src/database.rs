//! How rankings and clipboard items are written to and read from the SQLite tables.

use vstd::prelude::*;
use vstd::slice::slice_to_vec;
use vstd::string::StringExecFns;

use crate::clipboard::{image_view_opt, ClipBoardContentType, ClipContent, ImageData, ImageView};
use crate::text::{
    is_single_line, join_lines, join_with_line_feeds, lemma_split_join_any, lemma_split_join_lines,
    lines_of_all, nonempty_lines,
    split_nonempty_lines, text_eq,
};

verus! {

/// A value read from or written to an SQLite column.
#[derive(Debug)]
pub enum SqlValue {
    Null,
    Integer(i64),
    Text(String),
    Blob(Vec<u8>),
    /// A value that reads as none of the above: a floating-point number, or text that
    /// is not valid UTF-8.
    Other,
}

pub enum SqlData {
    Null,
    Integer(i64),
    Text(Seq<char>),
    Blob(Seq<u8>),
    Other,
}

impl View for SqlValue {
    type V = SqlData;

    open spec fn view(&self) -> SqlData {
        match self {
            SqlValue::Null => SqlData::Null,
            SqlValue::Integer(i) => SqlData::Integer(*i),
            SqlValue::Text(t) => SqlData::Text(t@),
            SqlValue::Blob(b) => SqlData::Blob(b@),
            SqlValue::Other => SqlData::Other,
        }
    }
}

pub open spec fn sql_data_seq(values: Seq<SqlValue>) -> Seq<SqlData> {
    values.map_values(|v: SqlValue| v@)
}

/// An SQL statement with its positional parameters `?1`, `?2`, ...
#[derive(Debug)]
pub struct Statement {
    pub sql: String,
    pub params: Vec<SqlValue>,
}

/// The columns `type, content, image_width, image_height, image_bytes` of a
/// clipboard history row.
#[derive(Debug)]
pub struct ClipboardRow {
    pub kind: SqlValue,
    pub content: SqlValue,
    pub width: SqlValue,
    pub height: SqlValue,
    pub bytes: SqlValue,
}

pub struct RowView {
    pub kind: SqlData,
    pub content: SqlData,
    pub width: SqlData,
    pub height: SqlData,
    pub bytes: SqlData,
}

impl View for ClipboardRow {
    type V = RowView;

    open spec fn view(&self) -> RowView {
        RowView {
            kind: self.kind@,
            content: self.content@,
            width: self.width@,
            height: self.height@,
            bytes: self.bytes@,
        }
    }
}

pub open spec fn insert_text_sql() -> Seq<char> {
    "INSERT INTO clipboard (type, content) VALUES ('Text', ?1)"@
}

pub open spec fn insert_image_sql() -> Seq<char> {
    "INSERT INTO clipboard (type, image_width, image_height, image_bytes) VALUES ('Image', ?1, ?2, ?3)"@
}

pub open spec fn insert_files_image_sql() -> Seq<char> {
    "INSERT INTO clipboard (type, content, image_width, image_height, image_bytes) VALUES ('Files', ?1, ?2, ?3, ?4)"@
}

pub open spec fn insert_files_sql() -> Seq<char> {
    "INSERT INTO clipboard (type, content) VALUES ('Files', ?1)"@
}

pub open spec fn delete_text_sql() -> Seq<char> {
    "DELETE FROM clipboard WHERE id = (SELECT id FROM clipboard WHERE type = 'Text' AND content = ?1 ORDER BY created_at DESC LIMIT 1)"@
}

pub open spec fn delete_image_sql() -> Seq<char> {
    "DELETE FROM clipboard WHERE id = (SELECT id FROM clipboard WHERE type = 'Image' AND image_width = ?1 AND image_height = ?2 AND image_bytes = ?3 ORDER BY created_at DESC LIMIT 1)"@
}

pub open spec fn delete_files_image_sql() -> Seq<char> {
    "DELETE FROM clipboard WHERE id = (SELECT id FROM clipboard WHERE type = 'Files' AND content = ?1 AND image_width = ?2 AND image_height = ?3 AND image_bytes = ?4 ORDER BY created_at DESC LIMIT 1)"@
}

pub open spec fn delete_files_sql() -> Seq<char> {
    "DELETE FROM clipboard WHERE id = (SELECT id FROM clipboard WHERE type = 'Files' AND content = ?1 AND image_bytes IS NULL ORDER BY created_at DESC LIMIT 1)"@
}

pub open spec fn save_ranking_sql() -> Seq<char> {
    "INSERT INTO rankings (name, rank) VALUES (?1, ?2)\n             ON CONFLICT(name) DO UPDATE SET rank = excluded.rank"@
}

/// Reading a column as text succeeds on text only.
pub open spec fn read_text(v: SqlData) -> Option<Seq<char>> {
    match v {
        SqlData::Text(t) => Some(t),
        _ => None,
    }
}

/// Reading a column as a 64-bit integer succeeds on integers only.
pub open spec fn read_integer(v: SqlData) -> Option<i64> {
    match v {
        SqlData::Integer(i) => Some(i),
        _ => None,
    }
}

/// Reading a column as bytes succeeds on blobs only.
pub open spec fn read_blob(v: SqlData) -> Option<Seq<u8>> {
    match v {
        SqlData::Blob(b) => Some(b),
        _ => None,
    }
}

/// Reading a column as optional bytes: `Some(None)` for NULL, `Some(Some(b))` for a blob,
/// `None` (a failed read) otherwise.
pub open spec fn read_optional_blob(v: SqlData) -> Option<Option<Seq<u8>>> {
    match v {
        SqlData::Null => Some(None),
        SqlData::Blob(b) => Some(Some(b)),
        _ => None,
    }
}

/// The image stored in the width, height and bytes columns of `row`, given its bytes.
pub open spec fn stored_image(row: RowView, bytes: Seq<u8>) -> Option<ImageView> {
    match (read_integer(row.width), read_integer(row.height)) {
        (Some(w), Some(h)) => Some(ImageView { width: w as usize, height: h as usize, bytes }),
        _ => None,
    }
}

/// The clipboard item a history row holds; `None` when a column cannot be read as
/// the row's kind requires. Rows of kind "Text" hold text, rows of kind "Files" hold the
/// paths one per line and maybe an image, and rows of any other kind hold an image.
pub open spec fn decode_row(row: RowView) -> Option<ClipContent> {
    match read_text(row.kind) {
        None => None,
        Some(kind) => {
            if kind == "Text"@ {
                match read_text(row.content) {
                    Some(t) => Some(ClipContent::Text(t)),
                    None => None,
                }
            } else if kind == "Files"@ {
                match (read_text(row.content), read_optional_blob(row.bytes)) {
                    (Some(c), Some(None)) => Some(ClipContent::Files(nonempty_lines(c), None)),
                    (Some(c), Some(Some(b))) => match stored_image(row, b) {
                        Some(img) => Some(ClipContent::Files(nonempty_lines(c), Some(img))),
                        None => None,
                    },
                    _ => None,
                }
            } else {
                match read_blob(row.bytes) {
                    Some(b) => match stored_image(row, b) {
                        Some(img) => Some(ClipContent::Image(img)),
                        None => None,
                    },
                    None => None,
                }
            }
        },
    }
}

/// The items of the history rows that decode, in row order.
pub open spec fn decode_rows(rows: Seq<RowView>) -> Seq<ClipContent>
    decreases rows.len(),
{
    if rows.len() == 0 {
        Seq::empty()
    } else {
        let prefix = decode_rows(rows.drop_last());
        match decode_row(rows.last()) {
            Some(c) => prefix.push(c),
            None => prefix,
        }
    }
}

/// The history of a single row holds that row's item when the row can be read, and
/// nothing otherwise.
pub proof fn lemma_history_of_one_row(row: RowView)
    ensures
        decode_rows(seq![row]) == match decode_row(row) {
            Some(c) => seq![c],
            None => Seq::<ClipContent>::empty(),
        },
{
    assert(seq![row].drop_last() =~= Seq::<RowView>::empty());
    assert(seq![row].last() == row);
    assert(decode_rows(Seq::<RowView>::empty()) == Seq::<ClipContent>::empty());
    match decode_row(row) {
        Some(c) => {
            assert(Seq::<ClipContent>::empty().push(c) =~= seq![c]);
        },
        None => {},
    }
}

/// Reading the history of rows read one after the other gives the two histories one
/// after the other.
pub proof fn lemma_history_of_concatenated_rows(a: Seq<RowView>, b: Seq<RowView>)
    ensures
        decode_rows(a + b) == decode_rows(a) + decode_rows(b),
    decreases b.len(),
{
    if b.len() == 0 {
        assert(a + b =~= a);
        assert(decode_rows(a) + decode_rows(b) =~= decode_rows(a));
    } else {
        lemma_history_of_concatenated_rows(a, b.drop_last());
        assert((a + b).drop_last() =~= a + b.drop_last());
        assert((a + b).last() == b.last());
        match decode_row(b.last()) {
            Some(c) => {
                assert(decode_rows(a + b) =~= decode_rows(a) + decode_rows(b));
            },
            None => {},
        }
    }
}

/// Every row that can be read is in the history, at the position after the items of the
/// rows before it, and the history holds nothing but the items of its rows.
pub proof fn lemma_history_keeps_every_readable_row(rows: Seq<RowView>, i: int)
    requires
        0 <= i < rows.len(),
        decode_row(rows[i]) is Some,
    ensures
        decode_rows(rows.take(i)).len() < decode_rows(rows).len(),
        decode_rows(rows)[decode_rows(rows.take(i)).len() as int] == decode_row(rows[i]).unwrap(),
{
    let before = rows.take(i);
    let after = rows.skip(i + 1);
    assert(rows =~= before + seq![rows[i]] + after);
    lemma_history_of_concatenated_rows(before + seq![rows[i]], after);
    lemma_history_of_concatenated_rows(before, seq![rows[i]]);
    lemma_history_of_one_row(rows[i]);
}

/// Each item of the history is the item of one of its rows.
pub proof fn lemma_history_items_come_from_rows(rows: Seq<RowView>)
    ensures
        decode_rows(rows).len() <= rows.len(),
        forall|k: int| 0 <= k < decode_rows(rows).len() ==> exists|i: int|
            0 <= i < rows.len() && decode_row(rows[i]) == Some(#[trigger] decode_rows(rows)[k]),
    decreases rows.len(),
{
    if rows.len() > 0 {
        let p = rows.drop_last();
        lemma_history_items_come_from_rows(p);
        assert forall|k: int| 0 <= k < decode_rows(rows).len() implies exists|i: int|
            0 <= i < rows.len() && decode_row(rows[i]) == Some(#[trigger] decode_rows(rows)[k]) by {
            if k < decode_rows(p).len() {
                let i = choose|i: int| 0 <= i < p.len() && decode_row(p[i]) == Some(#[trigger] decode_rows(p)[k]);
                assert(rows[i] == p[i]);
            } else {
                assert(decode_row(rows[rows.len() - 1]) == Some(decode_rows(rows)[k]));
            }
        }
    }
}

pub open spec fn image_params(img: ImageView) -> Seq<SqlData> {
    seq![
        SqlData::Integer(img.width as i64),
        SqlData::Integer(img.height as i64),
        SqlData::Blob(img.bytes),
    ]
}

/// The parameters written for an item: its text, or its joined paths, then the width,
/// height and bytes of its image, if it has one.
pub open spec fn item_params(c: ClipContent) -> Seq<SqlData> {
    match c {
        ClipContent::Text(t) => seq![SqlData::Text(t)],
        ClipContent::Image(img) => image_params(img),
        ClipContent::Files(f, None) => seq![SqlData::Text(join_lines(f))],
        ClipContent::Files(f, Some(img)) => seq![SqlData::Text(join_lines(f))] + image_params(img),
    }
}

pub open spec fn insert_sql(c: ClipContent) -> Seq<char> {
    match c {
        ClipContent::Text(_) => insert_text_sql(),
        ClipContent::Image(_) => insert_image_sql(),
        ClipContent::Files(_, None) => insert_files_sql(),
        ClipContent::Files(_, Some(_)) => insert_files_image_sql(),
    }
}

pub open spec fn delete_sql(c: ClipContent) -> Seq<char> {
    match c {
        ClipContent::Text(_) => delete_text_sql(),
        ClipContent::Image(_) => delete_image_sql(),
        ClipContent::Files(_, None) => delete_files_sql(),
        ClipContent::Files(_, Some(_)) => delete_files_image_sql(),
    }
}

/// What distinguishes the stored rows of items for the statements: the kind, and
/// which of the content, width and bytes columns are NULL.
pub open spec fn row_shape(row: RowView) -> (SqlData, bool, bool, bool) {
    (row.kind, row.content is Null, row.width is Null, row.bytes is Null)
}

proof fn lemma_statement_texts()
    ensures
        insert_text_sql().take(7) == "INSERT "@,
        insert_image_sql().take(7) == "INSERT "@,
        insert_files_sql().take(7) == "INSERT "@,
        insert_files_image_sql().take(7) == "INSERT "@,
        delete_text_sql().take(7) == "DELETE "@,
        delete_image_sql().take(7) == "DELETE "@,
        delete_files_sql().take(7) == "DELETE "@,
        delete_files_image_sql().take(7) == "DELETE "@,
        delete_text_sql().take(73) == "DELETE FROM clipboard WHERE id = (SELECT id FROM clipboard WHERE type = '"@,
        delete_image_sql().take(73) == "DELETE FROM clipboard WHERE id = (SELECT id FROM clipboard WHERE type = '"@,
        delete_files_sql().take(73) == "DELETE FROM clipboard WHERE id = (SELECT id FROM clipboard WHERE type = '"@,
        delete_files_image_sql().take(73) == "DELETE FROM clipboard WHERE id = (SELECT id FROM clipboard WHERE type = '"@,
        delete_text_sql().subrange(73, 78) == "Text'"@,
        delete_image_sql().subrange(73, 79) == "Image'"@,
        delete_files_sql().subrange(73, 79) == "Files'"@,
        delete_files_image_sql().subrange(73, 79) == "Files'"@,
        insert_text_sql() != insert_image_sql(),
        delete_text_sql() != delete_image_sql(),
        insert_text_sql() != insert_files_sql(),
        delete_text_sql() != delete_files_sql(),
        insert_text_sql() != insert_files_image_sql(),
        delete_text_sql() != delete_files_image_sql(),
        insert_image_sql() != insert_files_sql(),
        delete_image_sql() != delete_files_sql(),
        insert_image_sql() != insert_files_image_sql(),
        delete_image_sql() != delete_files_image_sql(),
        insert_files_sql() != insert_files_image_sql(),
        delete_files_sql() != delete_files_image_sql(),
        delete_text_sql() != insert_text_sql(),
        delete_text_sql() != insert_image_sql(),
        delete_text_sql() != insert_files_sql(),
        delete_text_sql() != insert_files_image_sql(),
        delete_image_sql() != insert_text_sql(),
        delete_image_sql() != insert_image_sql(),
        delete_image_sql() != insert_files_sql(),
        delete_image_sql() != insert_files_image_sql(),
        delete_files_sql() != insert_text_sql(),
        delete_files_sql() != insert_image_sql(),
        delete_files_sql() != insert_files_sql(),
        delete_files_sql() != insert_files_image_sql(),
        delete_files_image_sql() != insert_text_sql(),
        delete_files_image_sql() != insert_image_sql(),
        delete_files_image_sql() != insert_files_sql(),
        delete_files_image_sql() != insert_files_image_sql(),
{
    reveal_strlit("INSERT INTO clipboard (type, content) VALUES ('Text', ?1)");
    reveal_strlit("INSERT INTO clipboard (type, image_width, image_height, image_bytes) VALUES ('Image', ?1, ?2, ?3)");
    reveal_strlit("INSERT INTO clipboard (type, content) VALUES ('Files', ?1)");
    reveal_strlit("INSERT INTO clipboard (type, content, image_width, image_height, image_bytes) VALUES ('Files', ?1, ?2, ?3, ?4)");
    reveal_strlit("DELETE FROM clipboard WHERE id = (SELECT id FROM clipboard WHERE type = 'Text' AND content = ?1 ORDER BY created_at DESC LIMIT 1)");
    reveal_strlit("DELETE FROM clipboard WHERE id = (SELECT id FROM clipboard WHERE type = 'Image' AND image_width = ?1 AND image_height = ?2 AND image_bytes = ?3 ORDER BY created_at DESC LIMIT 1)");
    reveal_strlit("DELETE FROM clipboard WHERE id = (SELECT id FROM clipboard WHERE type = 'Files' AND content = ?1 AND image_bytes IS NULL ORDER BY created_at DESC LIMIT 1)");
    reveal_strlit("DELETE FROM clipboard WHERE id = (SELECT id FROM clipboard WHERE type = 'Files' AND content = ?1 AND image_width = ?2 AND image_height = ?3 AND image_bytes = ?4 ORDER BY created_at DESC LIMIT 1)");
    reveal_strlit("INSERT ");
    reveal_strlit("DELETE ");
    reveal_strlit("DELETE FROM clipboard WHERE id = (SELECT id FROM clipboard WHERE type = '");
    reveal_strlit("Text'");
    reveal_strlit("Image'");
    reveal_strlit("Files'");
    assert(insert_text_sql().take(7) =~= "INSERT "@);
    assert(insert_image_sql().take(7) =~= "INSERT "@);
    assert(insert_files_sql().take(7) =~= "INSERT "@);
    assert(insert_files_image_sql().take(7) =~= "INSERT "@);
    assert(delete_text_sql().take(7) =~= "DELETE "@);
    assert(delete_image_sql().take(7) =~= "DELETE "@);
    assert(delete_files_sql().take(7) =~= "DELETE "@);
    assert(delete_files_image_sql().take(7) =~= "DELETE "@);
    assert(delete_text_sql().take(73) =~= "DELETE FROM clipboard WHERE id = (SELECT id FROM clipboard WHERE type = '"@);
    assert(delete_image_sql().take(73) =~= "DELETE FROM clipboard WHERE id = (SELECT id FROM clipboard WHERE type = '"@);
    assert(delete_files_sql().take(73) =~= "DELETE FROM clipboard WHERE id = (SELECT id FROM clipboard WHERE type = '"@);
    assert(delete_files_image_sql().take(73) =~= "DELETE FROM clipboard WHERE id = (SELECT id FROM clipboard WHERE type = '"@);
    assert(delete_text_sql().subrange(73, 78) =~= "Text'"@);
    assert(delete_image_sql().subrange(73, 79) =~= "Image'"@);
    assert(delete_files_sql().subrange(73, 79) =~= "Files'"@);
    assert(delete_files_image_sql().subrange(73, 79) =~= "Files'"@);
    assert(insert_text_sql()[29] != insert_image_sql()[29]);
    assert(insert_text_sql()[47] != insert_files_sql()[47]);
    assert(insert_text_sql()[36] != insert_files_image_sql()[36]);
    assert(insert_image_sql()[29] != insert_files_sql()[29]);
    assert(insert_image_sql()[29] != insert_files_image_sql()[29]);
    assert(insert_files_sql()[36] != insert_files_image_sql()[36]);
    assert(delete_text_sql()[73] != delete_image_sql()[73]);
    assert(delete_text_sql()[73] != delete_files_sql()[73]);
    assert(delete_text_sql()[73] != delete_files_image_sql()[73]);
    assert(delete_image_sql()[73] != delete_files_sql()[73]);
    assert(delete_image_sql()[73] != delete_files_image_sql()[73]);
    assert(delete_files_sql()[107] != delete_files_image_sql()[107]);
    assert(delete_text_sql()[0] != insert_text_sql()[0]);
    assert(delete_text_sql()[0] != insert_image_sql()[0]);
    assert(delete_text_sql()[0] != insert_files_sql()[0]);
    assert(delete_text_sql()[0] != insert_files_image_sql()[0]);
    assert(delete_image_sql()[0] != insert_text_sql()[0]);
    assert(delete_image_sql()[0] != insert_image_sql()[0]);
    assert(delete_image_sql()[0] != insert_files_sql()[0]);
    assert(delete_image_sql()[0] != insert_files_image_sql()[0]);
    assert(delete_files_sql()[0] != insert_text_sql()[0]);
    assert(delete_files_sql()[0] != insert_image_sql()[0]);
    assert(delete_files_sql()[0] != insert_files_sql()[0]);
    assert(delete_files_sql()[0] != insert_files_image_sql()[0]);
    assert(delete_files_image_sql()[0] != insert_text_sql()[0]);
    assert(delete_files_image_sql()[0] != insert_image_sql()[0]);
    assert(delete_files_image_sql()[0] != insert_files_sql()[0]);
    assert(delete_files_image_sql()[0] != insert_files_image_sql()[0]);
}

proof fn lemma_insert_statement_texts()
    ensures
        insert_text_sql().take(23) == "INSERT INTO clipboard ("@,
        insert_text_sql().subrange(38, 52) == "VALUES ('Text'"@,
        insert_image_sql().take(23) == "INSERT INTO clipboard ("@,
        insert_image_sql().subrange(69, 84) == "VALUES ('Image'"@,
        insert_files_sql().take(23) == "INSERT INTO clipboard ("@,
        insert_files_sql().subrange(38, 53) == "VALUES ('Files'"@,
        insert_files_image_sql().take(23) == "INSERT INTO clipboard ("@,
        insert_files_image_sql().subrange(78, 93) == "VALUES ('Files'"@,
{
    reveal_strlit("INSERT INTO clipboard (type, content) VALUES ('Text', ?1)");
    reveal_strlit("INSERT INTO clipboard (type, image_width, image_height, image_bytes) VALUES ('Image', ?1, ?2, ?3)");
    reveal_strlit("INSERT INTO clipboard (type, content) VALUES ('Files', ?1)");
    reveal_strlit("INSERT INTO clipboard (type, content, image_width, image_height, image_bytes) VALUES ('Files', ?1, ?2, ?3, ?4)");
    reveal_strlit("INSERT INTO clipboard (");
    reveal_strlit("VALUES ('Text'");
    reveal_strlit("VALUES ('Image'");
    reveal_strlit("VALUES ('Files'");
    assert(insert_text_sql().take(23) =~= "INSERT INTO clipboard ("@);
    assert(insert_text_sql().subrange(38, 52) =~= "VALUES ('Text'"@);
    assert(insert_image_sql().take(23) =~= "INSERT INTO clipboard ("@);
    assert(insert_image_sql().subrange(69, 84) =~= "VALUES ('Image'"@);
    assert(insert_files_sql().take(23) =~= "INSERT INTO clipboard ("@);
    assert(insert_files_sql().subrange(38, 53) =~= "VALUES ('Files'"@);
    assert(insert_files_image_sql().take(23) =~= "INSERT INTO clipboard ("@);
    assert(insert_files_image_sql().subrange(78, 93) =~= "VALUES ('Files'"@);
}

/// Every delete statement is an SQL `DELETE` of the latest clipboard row of the item's
/// kind, named right after `type = '`; every insert statement is an SQL `INSERT`; the
/// two never coincide.
pub proof fn lemma_delete_statement_deletes(c: ClipContent)
    ensures
        delete_sql(c).take(7) == "DELETE "@,
        insert_sql(c).take(7) == "INSERT "@,
        delete_sql(c).take(73) == "DELETE FROM clipboard WHERE id = (SELECT id FROM clipboard WHERE type = '"@,
        delete_sql(c).subrange(73, 73 + read_text(stored_row(c).kind).unwrap().len() as int + 1)
            == read_text(stored_row(c).kind).unwrap() + "'"@,
        delete_sql(c) != insert_sql(c),
        insert_sql(c).take(23) == "INSERT INTO clipboard ("@,
        exists|i: int| 0 <= i && #[trigger] insert_sql(c).subrange(i, i + 9 + read_text(stored_row(c).kind).unwrap().len() as int + 1)
            == "VALUES ('"@ + read_text(stored_row(c).kind).unwrap() + "'"@,
{
    lemma_statement_texts();
    lemma_insert_statement_texts();
    reveal_strlit("Text");
    reveal_strlit("Image");
    reveal_strlit("Files");
    reveal_strlit("'");
    reveal_strlit("Text'");
    reveal_strlit("Image'");
    reveal_strlit("Files'");
    assert("Text"@ + "'"@ =~= "Text'"@);
    assert("Image"@ + "'"@ =~= "Image'"@);
    assert("Files"@ + "'"@ =~= "Files'"@);
    reveal_strlit("VALUES ('");
    reveal_strlit("VALUES ('Text'");
    reveal_strlit("VALUES ('Image'");
    reveal_strlit("VALUES ('Files'");
    assert("VALUES ('"@ + "Text"@ + "'"@ =~= "VALUES ('Text'"@);
    assert("VALUES ('"@ + "Image"@ + "'"@ =~= "VALUES ('Image'"@);
    assert("VALUES ('"@ + "Files"@ + "'"@ =~= "VALUES ('Files'"@);
    let kind = read_text(stored_row(c).kind).unwrap();
    let i: int = match c {
        ClipContent::Text(_) => 38,
        ClipContent::Image(_) => 69,
        ClipContent::Files(_, None) => 38,
        ClipContent::Files(_, Some(_)) => 78,
    };
    assert(insert_sql(c).subrange(i, i + 9 + kind.len() as int + 1) == "VALUES ('"@ + kind + "'"@);
}

/// Two items get the same delete statement, and the same insert statement, exactly when
/// their stored rows have the same kind and the same NULL columns.
pub proof fn lemma_statements_follow_row_shape(c1: ClipContent, c2: ClipContent)
    ensures
        delete_sql(c1) == delete_sql(c2) <==> row_shape(stored_row(c1)) == row_shape(stored_row(c2)),
        insert_sql(c1) == insert_sql(c2) <==> row_shape(stored_row(c1)) == row_shape(stored_row(c2)),
{
    lemma_statement_texts();
    reveal_strlit("Text");
    reveal_strlit("Image");
    reveal_strlit("Files");
    assert("Image"@[0] != "Text"@[0]);
    assert("Image"@[0] != "Files"@[0]);
    assert("Files"@[0] != "Text"@[0]);
}

/// The row that the insert statement of an item leaves in the history table: the kind
/// named by the statement, the parameters in the columns it lists, NULL elsewhere.
pub open spec fn stored_row(c: ClipContent) -> RowView {
    match c {
        ClipContent::Text(t) => RowView {
            kind: SqlData::Text("Text"@),
            content: SqlData::Text(t),
            width: SqlData::Null,
            height: SqlData::Null,
            bytes: SqlData::Null,
        },
        ClipContent::Image(img) => RowView {
            kind: SqlData::Text("Image"@),
            content: SqlData::Null,
            width: SqlData::Integer(img.width as i64),
            height: SqlData::Integer(img.height as i64),
            bytes: SqlData::Blob(img.bytes),
        },
        ClipContent::Files(f, None) => RowView {
            kind: SqlData::Text("Files"@),
            content: SqlData::Text(join_lines(f)),
            width: SqlData::Null,
            height: SqlData::Null,
            bytes: SqlData::Null,
        },
        ClipContent::Files(f, Some(img)) => RowView {
            kind: SqlData::Text("Files"@),
            content: SqlData::Text(join_lines(f)),
            width: SqlData::Integer(img.width as i64),
            height: SqlData::Integer(img.height as i64),
            bytes: SqlData::Blob(img.bytes),
        },
    }
}

/// The values of a clipboard history row that are not NULL, from `content` on, in
/// column order.
pub open spec fn non_null_columns(row: RowView) -> Seq<SqlData> {
    seq![row.content, row.width, row.height, row.bytes].filter(|v: SqlData| !(v is Null))
}

/// The parameters of the insert and of the delete statement of an item are the values
/// that the insert leaves in the row's columns, in column order: a delete matches
/// exactly what the insert of the same item stored.
pub proof fn lemma_params_are_stored_columns(c: ClipContent)
    ensures
        item_params(c) == non_null_columns(stored_row(c)),
{
    reveal_with_fuel(Seq::filter, 5);
    let row = stored_row(c);
    let cols = seq![row.content, row.width, row.height, row.bytes];
    assert(cols.drop_last().drop_last().drop_last().drop_last() =~= Seq::<SqlData>::empty());
    assert(cols.drop_last().drop_last().drop_last() =~= seq![row.content]);
    assert(cols.drop_last().drop_last() =~= seq![row.content, row.width]);
    assert(cols.drop_last() =~= seq![row.content, row.width, row.height]);
    assert(item_params(c) =~= non_null_columns(row));
}

fn image_param_values(img: &ImageData) -> (r: Vec<SqlValue>)
    ensures
        sql_data_seq(r@) == image_params(img@),
{
    let r = vec![
        SqlValue::Integer(img.width as i64),
        SqlValue::Integer(img.height as i64),
        SqlValue::Blob(slice_to_vec(img.bytes.as_slice())),
    ];
    assert(sql_data_seq(r@) =~= image_params(img@));
    r
}

fn item_param_values(item: &ClipBoardContentType) -> (r: Vec<SqlValue>)
    ensures
        sql_data_seq(r@) == item_params(item@),
{
    match item {
        ClipBoardContentType::Text(t) => {
            let r = vec![SqlValue::Text(t.clone())];
            assert(sql_data_seq(r@) =~= item_params(item@));
            r
        },
        ClipBoardContentType::Image(img) => image_param_values(img),
        ClipBoardContentType::Files(files, img) => {
            let mut r = vec![SqlValue::Text(join_with_line_feeds(files))];
            match img {
                Some(img) => {
                    let mut rest = image_param_values(img);
                    r.append(&mut rest);
                    assert(sql_data_seq(r@) =~= item_params(item@));
                },
                None => {
                    assert(sql_data_seq(r@) =~= item_params(item@));
                },
            }
            r
        },
    }
}

/// The statement that adds an item to the clipboard history.
pub fn save_clipboard_item_statement(item: &ClipBoardContentType) -> (r: Statement)
    ensures
        r.sql@ == insert_sql(item@),
        sql_data_seq(r.params@) == item_params(item@),
{
    let sql = match item {
        ClipBoardContentType::Text(_) => "INSERT INTO clipboard (type, content) VALUES ('Text', ?1)".to_owned(),
        ClipBoardContentType::Image(_) => "INSERT INTO clipboard (type, image_width, image_height, image_bytes) VALUES ('Image', ?1, ?2, ?3)".to_owned(),
        ClipBoardContentType::Files(_, Some(_)) => "INSERT INTO clipboard (type, content, image_width, image_height, image_bytes) VALUES ('Files', ?1, ?2, ?3, ?4)".to_owned(),
        ClipBoardContentType::Files(_, None) => "INSERT INTO clipboard (type, content) VALUES ('Files', ?1)".to_owned(),
    };
    Statement { sql, params: item_param_values(item) }
}

/// The statement that removes the most recent history row holding an item.
pub fn delete_clipboard_item_statement(item: &ClipBoardContentType) -> (r: Statement)
    ensures
        r.sql@ == delete_sql(item@),
        sql_data_seq(r.params@) == item_params(item@),
{
    let sql = match item {
        ClipBoardContentType::Text(_) => "DELETE FROM clipboard WHERE id = (SELECT id FROM clipboard WHERE type = 'Text' AND content = ?1 ORDER BY created_at DESC LIMIT 1)".to_owned(),
        ClipBoardContentType::Image(_) => "DELETE FROM clipboard WHERE id = (SELECT id FROM clipboard WHERE type = 'Image' AND image_width = ?1 AND image_height = ?2 AND image_bytes = ?3 ORDER BY created_at DESC LIMIT 1)".to_owned(),
        ClipBoardContentType::Files(_, Some(_)) => "DELETE FROM clipboard WHERE id = (SELECT id FROM clipboard WHERE type = 'Files' AND content = ?1 AND image_width = ?2 AND image_height = ?3 AND image_bytes = ?4 ORDER BY created_at DESC LIMIT 1)".to_owned(),
        ClipBoardContentType::Files(_, None) => "DELETE FROM clipboard WHERE id = (SELECT id FROM clipboard WHERE type = 'Files' AND content = ?1 AND image_bytes IS NULL ORDER BY created_at DESC LIMIT 1)".to_owned(),
    };
    Statement { sql, params: item_param_values(item) }
}

fn read_text_column(v: &SqlValue) -> (r: Option<String>)
    ensures
        match r {
            Some(t) => read_text(v@) == Some(t@),
            None => read_text(v@) is None,
        },
{
    match v {
        SqlValue::Text(t) => Some(t.clone()),
        _ => None,
    }
}

fn read_integer_column(v: &SqlValue) -> (r: Option<i64>)
    ensures
        r == read_integer(v@),
{
    match v {
        SqlValue::Integer(i) => Some(*i),
        _ => None,
    }
}

/// The image in the width, height and bytes columns of `row`, given its bytes.
fn read_image(row: &ClipboardRow, bytes: Vec<u8>) -> (r: Option<ImageData>)
    ensures
        image_view_opt(r) == stored_image(row@, bytes@),
{
    let w = match read_integer_column(&row.width) {
        Some(w) => w,
        None => return None,
    };
    let h = match read_integer_column(&row.height) {
        Some(h) => h,
        None => return None,
    };
    Some(ImageData { width: w as usize, height: h as usize, bytes })
}

/// The clipboard item held by a history row, or `None` when a column of the row
/// cannot be read as its kind requires (such rows are skipped).
pub fn decode_clipboard_row(row: &ClipboardRow) -> (r: Option<ClipBoardContentType>)
    ensures
        match r {
            Some(c) => decode_row(row@) == Some(c@),
            None => decode_row(row@) is None,
        },
{
    let kind = match read_text_column(&row.kind) {
        Some(k) => k,
        None => return None,
    };
    if text_eq(kind.as_str(), "Text") {
        match read_text_column(&row.content) {
            Some(t) => Some(ClipBoardContentType::Text(t)),
            None => None,
        }
    } else if text_eq(kind.as_str(), "Files") {
        let content = match read_text_column(&row.content) {
            Some(c) => c,
            None => return None,
        };
        let files = split_nonempty_lines(content.as_str());
        match &row.bytes {
            SqlValue::Null => Some(ClipBoardContentType::Files(files, None)),
            SqlValue::Blob(b) => match read_image(row, slice_to_vec(b.as_slice())) {
                Some(img) => Some(ClipBoardContentType::Files(files, Some(img))),
                None => None,
            },
            _ => None,
        }
    } else {
        match &row.bytes {
            SqlValue::Blob(b) => match read_image(row, slice_to_vec(b.as_slice())) {
                Some(img) => Some(ClipBoardContentType::Image(img)),
                None => None,
            },
            _ => None,
        }
    }
}

pub open spec fn row_views(rows: Seq<ClipboardRow>) -> Seq<RowView> {
    rows.map_values(|r: ClipboardRow| r@)
}

pub open spec fn item_views(items: Seq<ClipBoardContentType>) -> Seq<ClipContent> {
    items.map_values(|c: ClipBoardContentType| c@)
}

pub open spec fn history_sql() -> Seq<char> {
    "SELECT type, content, image_width, image_height, image_bytes FROM clipboard ORDER BY created_at DESC LIMIT ?1"@
}

/// The query for the `limit` most recent clipboard history rows, newest first.
pub fn clipboard_history_statement(limit: u32) -> (r: Statement)
    ensures
        r.sql@ == history_sql(),
        sql_data_seq(r.params@) == seq![SqlData::Integer(limit as i64)],
{
    let params = vec![SqlValue::Integer(limit as i64)];
    assert(sql_data_seq(params@) =~= seq![SqlData::Integer(limit as i64)]);
    Statement {
        sql: "SELECT type, content, image_width, image_height, image_bytes FROM clipboard ORDER BY created_at DESC LIMIT ?1".to_owned(),
        params,
    }
}

/// Whether the `WHERE` clause of the delete statement of `c` selects `row`: the row's
/// kind is the item's, each compared column equals the parameter stored for it, and for
/// a file list without an image the bytes column is NULL.
pub open spec fn delete_matches(c: ClipContent, row: RowView) -> bool {
    match c {
        ClipContent::Text(t) => {
            &&& row.kind == SqlData::Text("Text"@)
            &&& row.content == SqlData::Text(t)
        },
        ClipContent::Image(img) => {
            &&& row.kind == SqlData::Text("Image"@)
            &&& row.width == SqlData::Integer(img.width as i64)
            &&& row.height == SqlData::Integer(img.height as i64)
            &&& row.bytes == SqlData::Blob(img.bytes)
        },
        ClipContent::Files(f, None) => {
            &&& row.kind == SqlData::Text("Files"@)
            &&& row.content == SqlData::Text(join_lines(f))
            &&& row.bytes == SqlData::Null
        },
        ClipContent::Files(f, Some(img)) => {
            &&& row.kind == SqlData::Text("Files"@)
            &&& row.content == SqlData::Text(join_lines(f))
            &&& row.width == SqlData::Integer(img.width as i64)
            &&& row.height == SqlData::Integer(img.height as i64)
            &&& row.bytes == SqlData::Blob(img.bytes)
        },
    }
}

/// Among rows that saving items left, the delete statement of an item selects exactly
/// those that hold the same stored values as the row its own save leaves; in particular
/// it selects the row saving that item left.
pub proof fn lemma_delete_selects_saved_rows(c: ClipContent, saved: ClipContent)
    ensures
        delete_matches(c, stored_row(saved)) <==> stored_row(saved) == stored_row(c),
        delete_matches(c, stored_row(c)),
{
    reveal_strlit("Text");
    reveal_strlit("Image");
    reveal_strlit("Files");
    assert("Image"@[0] != "Text"@[0]);
    assert("Image"@[0] != "Files"@[0]);
    assert("Files"@[0] != "Text"@[0]);
}

/// The clipboard history read from its rows: the items of the rows that can be read,
/// in row order.
pub fn clipboard_history_from_rows(rows: &Vec<ClipboardRow>) -> (r: Vec<ClipBoardContentType>)
    ensures
        item_views(r@) == decode_rows(row_views(rows@)),
{
    let mut items: Vec<ClipBoardContentType> = Vec::new();
    for i in 0..rows.len()
        invariant
            item_views(items@) == decode_rows(row_views(rows@).take(i as int)),
    {
        let ghost prefix = row_views(rows@).take(i + 1);
        assert(prefix.drop_last() =~= row_views(rows@).take(i as int));
        assert(prefix.last() == rows@[i as int]@);
        match decode_clipboard_row(&rows[i]) {
            Some(c) => {
                items.push(c);
                assert(item_views(items@) =~= decode_rows(prefix));
            },
            None => {
                assert(item_views(items@) =~= decode_rows(prefix));
            },
        }
    }
    assert(row_views(rows@).take(rows.len() as int) =~= row_views(rows@));
    items
}

/// Items that the history can hold faithfully: any text or image, and file lists whose
/// paths are non-empty and hold no line feed.
pub open spec fn storable(c: ClipContent) -> bool {
    match c {
        ClipContent::Files(f, _) => forall|i: int| 0 <= i < f.len() ==> is_single_line(#[trigger] f[i]),
        _ => true,
    }
}

proof fn lemma_size_roundtrip(n: usize)
    ensures
        (n as i64) as usize == n,
{
    assert((n as i64) as usize == n) by (bit_vector);
}

/// What reading back the row of a saved item gives: the item itself, except that a
/// file list comes back as the non-empty lines of its paths.
pub open spec fn read_back(c: ClipContent) -> ClipContent {
    match c {
        ClipContent::Files(f, img) => ClipContent::Files(lines_of_all(f), img),
        _ => c,
    }
}

/// Reading back the row that saving any item leaves gives `read_back` of the item:
/// empty paths are dropped and paths holding line feeds are split into their lines.
pub proof fn lemma_stored_row_reads_back_any(c: ClipContent)
    ensures
        decode_row(stored_row(c)) == Some(read_back(c)),
{
    reveal_strlit("Text");
    reveal_strlit("Image");
    reveal_strlit("Files");
    assert("Image"@[0] != "Text"@[0]);
    assert("Image"@[0] != "Files"@[0]);
    assert("Files"@[0] != "Text"@[0]);
    match c {
        ClipContent::Text(_) => {},
        ClipContent::Image(img) => {
            lemma_size_roundtrip(img.width);
            lemma_size_roundtrip(img.height);
        },
        ClipContent::Files(f, img) => {
            lemma_split_join_any(f);
            match img {
                Some(i) => {
                    lemma_size_roundtrip(i.width);
                    lemma_size_roundtrip(i.height);
                },
                None => {},
            }
        },
    }
}

/// Reading back the row that saving an item leaves gives the same item.
pub proof fn lemma_stored_row_reads_back(c: ClipContent)
    requires
        storable(c),
    ensures
        decode_row(stored_row(c)) == Some(c),
{
    reveal_strlit("Text");
    reveal_strlit("Image");
    reveal_strlit("Files");
    assert("Image"@[0] != "Text"@[0]);
    assert("Image"@[0] != "Files"@[0]);
    assert("Files"@[0] != "Text"@[0]);
    match c {
        ClipContent::Text(_) => {},
        ClipContent::Image(img) => {
            lemma_size_roundtrip(img.width);
            lemma_size_roundtrip(img.height);
        },
        ClipContent::Files(f, img) => {
            lemma_split_join_lines(f);
            match img {
                Some(i) => {
                    lemma_size_roundtrip(i.width);
                    lemma_size_roundtrip(i.height);
                },
                None => {},
            }
        },
    }
}

/// Where the database file lives under the user's home directory.
pub open spec fn database_path_spec(home: Seq<char>) -> Seq<char> {
    home + "/.config/rustcast/rustcast.db"@
}

/// The path of the database file for the home directory `home`.
pub fn database_path(home: &str) -> (r: String)
    ensures
        r@ == database_path_spec(home@),
{
    let mut path = home.to_owned();
    path.append("/.config/rustcast/rustcast.db");
    path
}

/// The ranking a `rankings` row holds: its name must be text and its rank an integer
/// that fits in 32 bits.
pub open spec fn decode_ranking(name: SqlData, rank: SqlData) -> Option<(Seq<char>, i32)> {
    match (read_text(name), read_integer(rank)) {
        (Some(n), Some(r)) => if i32::MIN <= r <= i32::MAX {
            Some((n, r as i32))
        } else {
            None
        },
        _ => None,
    }
}

/// Rankings by name read from rows in order: each readable row sets the rank of its
/// name, so the last readable row of a name decides.
pub open spec fn rankings_map(rows: Seq<(SqlData, SqlData)>) -> Map<Seq<char>, i32>
    decreases rows.len(),
{
    if rows.len() == 0 {
        Map::empty()
    } else {
        let m = rankings_map(rows.drop_last());
        match decode_ranking(rows.last().0, rows.last().1) {
            Some((n, r)) => m.insert(n, r),
            None => m,
        }
    }
}

pub open spec fn ranking_row_views(rows: Seq<(SqlValue, SqlValue)>) -> Seq<(SqlData, SqlData)> {
    rows.map_values(|row: (SqlValue, SqlValue)| (row.0@, row.1@))
}

/// `pairs` lists the entries of `m`, each name once.
pub open spec fn lists_map(pairs: Seq<(String, i32)>, m: Map<Seq<char>, i32>) -> bool {
    &&& forall|i: int, j: int| 0 <= i < j < pairs.len() ==> pairs[i].0@ != pairs[j].0@
    &&& forall|i: int| 0 <= i < pairs.len() ==> #[trigger] m.contains_key(pairs[i].0@) && m[pairs[i].0@] == pairs[i].1
    &&& forall|k: Seq<char>| #[trigger] m.contains_key(k) ==> exists|i: int| 0 <= i < pairs.len() && pairs[i].0@ == k
}

/// The statement that records the rank of a launcher entry, replacing an earlier one.
pub fn save_ranking_statement(name: &str, rank: i32) -> (r: Statement)
    ensures
        r.sql@ == save_ranking_sql(),
        sql_data_seq(r.params@) == seq![SqlData::Text(name@), SqlData::Integer(rank as i64)],
{
    let params = vec![SqlValue::Text(name.to_owned()), SqlValue::Integer(rank as i64)];
    assert(sql_data_seq(params@) =~= seq![SqlData::Text(name@), SqlData::Integer(rank as i64)]);
    Statement { sql: "INSERT INTO rankings (name, rank) VALUES (?1, ?2)\n             ON CONFLICT(name) DO UPDATE SET rank = excluded.rank".to_owned(), params }
}

/// What `save_ranking` stores is read back as the same name and rank.
pub proof fn lemma_saved_ranking_reads_back(name: Seq<char>, rank: i32)
    ensures
        decode_ranking(SqlData::Text(name), SqlData::Integer(rank as i64)) == Some((name, rank)),
{
}

/// A later readable row of a name overrides what earlier rows said of it.
pub proof fn lemma_later_ranking_wins(rows: Seq<(SqlData, SqlData)>, row: (SqlData, SqlData))
    requires
        decode_ranking(row.0, row.1) is Some,
    ensures
        rankings_map(rows.push(row)) == rankings_map(rows).insert(
            decode_ranking(row.0, row.1).unwrap().0,
            decode_ranking(row.0, row.1).unwrap().1,
        ),
{
    assert(rows.push(row).drop_last() =~= rows);
}

/// The name and rank a ranking row holds, when it can be read.
pub open spec fn row_ranking(row: (SqlData, SqlData)) -> Option<(Seq<char>, i32)> {
    decode_ranking(row.0, row.1)
}

/// Whether `row` can be read and names `name`.
pub open spec fn row_names(row: (SqlData, SqlData), name: Seq<char>) -> bool {
    match row_ranking(row) {
        Some((n, _)) => n == name,
        None => false,
    }
}

/// A name has a rank exactly when some readable row names it, and its rank is the rank
/// of the last readable row that names it.
#[verifier::spinoff_prover]
#[verifier::rlimit(40)]
pub proof fn lemma_rankings_map_entry(rows: Seq<(SqlData, SqlData)>, name: Seq<char>)
    ensures
        rankings_map(rows).contains_key(name) <==> exists|i: int|
            0 <= i < rows.len() && #[trigger] row_names(rows[i], name),
        forall|i: int|
            0 <= i < rows.len() && #[trigger] row_names(rows[i], name)
                && (forall|j: int| i < j < rows.len() ==> !#[trigger] row_names(rows[j], name))
                ==> rankings_map(rows)[name] == row_ranking(rows[i]).unwrap().1,
    decreases rows.len(),
{
    if rows.len() > 0 {
        let prefix = rows.drop_last();
        let last = rows.len() - 1;
        lemma_rankings_map_entry(prefix, name);
        assert forall|i: int| 0 <= i < prefix.len() implies prefix[i] == rows[i] by {}
        if rankings_map(rows).contains_key(name) {
            if !row_names(rows[last], name) {
                let i = choose|i: int|
                    0 <= i < prefix.len() && #[trigger] row_names(prefix[i], name);
                assert(row_names(rows[i], name));
            }
        }
        assert forall|i: int|
            0 <= i < rows.len() && #[trigger] row_names(rows[i], name)
                && (forall|j: int| i < j < rows.len() ==> !#[trigger] row_names(rows[j], name))
            implies rankings_map(rows)[name] == row_ranking(rows[i]).unwrap().1 by {
            if i < last {
                assert(!row_names(rows[last], name));
                assert(row_ranking(prefix[i]) == row_ranking(rows[i]));
                assert forall|j: int| i < j < prefix.len() implies !#[trigger] row_names(prefix[j], name) by {
                    assert(row_ranking(prefix[j]) == row_ranking(rows[j]));
                }
            }
        }
    }
}

/// When exactly one readable row names `name`, the rankings give `name` that row's rank:
/// after saving a rank for a name, whose row then holds the last rank saved, reading the
/// rankings gives that rank.
pub proof fn lemma_single_row_fixes_rank(rows: Seq<(SqlData, SqlData)>, i: int, name: Seq<char>, rank: i32)
    requires
        0 <= i < rows.len(),
        row_ranking(rows[i]) == Some((name, rank)),
        forall|j: int| 0 <= j < rows.len() && j != i ==> !#[trigger] row_names(rows[j], name),
    ensures
        rankings_map(rows).contains_key(name),
        rankings_map(rows)[name] == rank,
{
    lemma_rankings_map_entry(rows, name);
    assert(row_names(rows[i], name));
    assert forall|j: int| i < j < rows.len() implies !#[trigger] row_names(rows[j], name) by {}
}

fn decode_ranking_row(row: &(SqlValue, SqlValue)) -> (r: Option<(String, i32)>)
    ensures
        match r {
            Some((n, k)) => decode_ranking(row.0@, row.1@) == Some((n@, k)),
            None => decode_ranking(row.0@, row.1@) is None,
        },
{
    let name = match read_text_column(&row.0) {
        Some(n) => n,
        None => return None,
    };
    let rank = match read_integer_column(&row.1) {
        Some(r) => r,
        None => return None,
    };
    if i32::MIN as i64 <= rank && rank <= i32::MAX as i64 {
        Some((name, rank as i32))
    } else {
        None
    }
}

/// The rankings read from the rows of the `rankings` table, each name once with the
/// rank of its last readable row; rows that cannot be read are skipped.
pub fn rankings_from_rows(rows: &Vec<(SqlValue, SqlValue)>) -> (r: Vec<(String, i32)>)
    ensures
        lists_map(r@, rankings_map(ranking_row_views(rows@))),
{
    let mut out: Vec<(String, i32)> = Vec::new();
    let ghost views = ranking_row_views(rows@);
    for i in 0..rows.len()
        invariant
            views == ranking_row_views(rows@),
            lists_map(out@, rankings_map(views.take(i as int))),
    {
        let ghost prefix = views.take(i + 1);
        let ghost before = rankings_map(views.take(i as int));
        assert(prefix.drop_last() =~= views.take(i as int));
        assert(prefix.last() == (rows@[i as int].0@, rows@[i as int].1@));
        match decode_ranking_row(&rows[i]) {
            Some((name, rank)) => {
                let ghost m = before.insert(name@, rank);
                assert(rankings_map(prefix) == m);
                let mut j: usize = 0;
                let n = out.len();
                let mut found = false;
                while j < n
                    invariant_except_break
                        !found,
                    invariant
                        n == out@.len(),
                        j <= n,
                        forall|k: int| 0 <= k < j ==> out@[k].0@ != name@,
                    ensures
                        found ==> j < n && out@[j as int].0@ == name@,
                        !found ==> j == n,
                    decreases n - j,
                {
                    if text_eq(out[j].0.as_str(), name.as_str()) {
                        found = true;
                        break;
                    }
                    j = j + 1;
                }
                let ghost old_out = out@;
                if found {
                    out.set(j, (name, rank));
                    assert forall|k: Seq<char>| #[trigger] m.contains_key(k) implies exists|x: int|
                        0 <= x < out@.len() && out@[x].0@ == k by {
                        if k != old_out[j as int].0@ {
                            let x = choose|x: int| 0 <= x < old_out.len() && old_out[x].0@ == k;
                            assert(out@[x] == old_out[x]);
                        } else {
                            assert(out@[j as int].0@ == k);
                        }
                    }
                } else {
                    out.push((name, rank));
                    assert forall|k: Seq<char>| #[trigger] m.contains_key(k) implies exists|x: int|
                        0 <= x < out@.len() && out@[x].0@ == k by {
                        if k != name@ {
                            let x = choose|x: int| 0 <= x < old_out.len() && old_out[x].0@ == k;
                            assert(out@[x] == old_out[x]);
                        } else {
                            assert(out@[n as int].0@ == k);
                        }
                    }
                }
                assert forall|x: int, y: int| 0 <= x < y < out@.len() implies out@[x].0@ != out@[y].0@ by {
                    if found {
                        assert(out@[x].0@ == old_out[x].0@);
                        assert(out@[y].0@ == old_out[y].0@);
                    } else if y == n {
                        assert(out@[x] == old_out[x]);
                    } else {
                        assert(out@[x] == old_out[x]);
                        assert(out@[y] == old_out[y]);
                    }
                }
                assert forall|x: int| 0 <= x < out@.len() implies #[trigger] m.contains_key(out@[x].0@)
                    && m[out@[x].0@] == out@[x].1 by {
                    if (found && x == j) || (!found && x == n) {
                        assert(out@[x].0@ == name@);
                    } else {
                        assert(out@[x] == old_out[x]);
                        assert(old_out[x].0@ != name@);
                        assert(before.contains_key(old_out[x].0@));
                    }
                }
                assert(lists_map(out@, m));
            },
            None => {
                assert(rankings_map(prefix) == before);
            },
        }
    }
    assert(views.take(rows.len() as int) =~= views);
    out
}

} // verus!
