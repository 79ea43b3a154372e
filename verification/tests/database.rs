use rustcast::clipboard::{ClipBoardContentType, ImageData};
use rustcast::database::{
    clipboard_history_from_rows, clipboard_history_statement, database_path, decode_clipboard_row, delete_clipboard_item_statement,
    rankings_from_rows, save_clipboard_item_statement, save_ranking_statement, ClipboardRow, SqlValue,
};

fn t(s: &str) -> SqlValue {
    SqlValue::Text(s.to_string())
}

fn row(kind: SqlValue, content: SqlValue, width: SqlValue, height: SqlValue, bytes: SqlValue) -> ClipboardRow {
    ClipboardRow { kind, content, width, height, bytes }
}

fn image(width: usize, height: usize, bytes: &[u8]) -> ImageData {
    ImageData { width, height, bytes: bytes.to_vec() }
}

fn param_summary(params: &[SqlValue]) -> Vec<String> {
    params
        .iter()
        .map(|p| match p {
            SqlValue::Null => "null".to_string(),
            SqlValue::Integer(i) => format!("int {}", i),
            SqlValue::Text(s) => format!("text {}", s),
            SqlValue::Blob(b) => format!("blob {:?}", b),
            SqlValue::Other => "other".to_string(),
        })
        .collect()
}

#[test]
fn text_statements() {
    let item = ClipBoardContentType::Text("hi".to_string());
    let ins = save_clipboard_item_statement(&item);
    assert_eq!(ins.sql, "INSERT INTO clipboard (type, content) VALUES ('Text', ?1)");
    assert_eq!(param_summary(&ins.params), vec!["text hi"]);
    let del = delete_clipboard_item_statement(&item);
    assert_eq!(
        del.sql,
        "DELETE FROM clipboard WHERE id = (SELECT id FROM clipboard WHERE type = 'Text' AND content = ?1 ORDER BY created_at DESC LIMIT 1)"
    );
    assert_eq!(param_summary(&del.params), vec!["text hi"]);
}

#[test]
fn image_statements() {
    let item = ClipBoardContentType::Image(image(3, 2, &[7, 8]));
    let ins = save_clipboard_item_statement(&item);
    assert_eq!(
        ins.sql,
        "INSERT INTO clipboard (type, image_width, image_height, image_bytes) VALUES ('Image', ?1, ?2, ?3)"
    );
    assert_eq!(param_summary(&ins.params), vec!["int 3", "int 2", "blob [7, 8]"]);
    let del = delete_clipboard_item_statement(&item);
    assert!(del.sql.contains("type = 'Image' AND image_width = ?1 AND image_height = ?2 AND image_bytes = ?3"));
    assert_eq!(param_summary(&del.params), vec!["int 3", "int 2", "blob [7, 8]"]);
}

#[test]
fn file_statements() {
    let plain = ClipBoardContentType::Files(vec!["/a".to_string(), "/b c".to_string()], None);
    let ins = save_clipboard_item_statement(&plain);
    assert_eq!(ins.sql, "INSERT INTO clipboard (type, content) VALUES ('Files', ?1)");
    assert_eq!(param_summary(&ins.params), vec!["text /a\n/b c"]);
    let del = delete_clipboard_item_statement(&plain);
    assert!(del.sql.contains("type = 'Files' AND content = ?1 AND image_bytes IS NULL"));

    let with_image = ClipBoardContentType::Files(vec!["/a".to_string()], Some(image(1, 1, &[5])));
    let ins = save_clipboard_item_statement(&with_image);
    assert_eq!(
        ins.sql,
        "INSERT INTO clipboard (type, content, image_width, image_height, image_bytes) VALUES ('Files', ?1, ?2, ?3, ?4)"
    );
    assert_eq!(param_summary(&ins.params), vec!["text /a", "int 1", "int 1", "blob [5]"]);
    let del = delete_clipboard_item_statement(&with_image);
    assert_eq!(param_summary(&del.params), param_summary(&ins.params));
}

#[test]
fn decode_text_row() {
    let item = decode_clipboard_row(&row(t("Text"), t("hello"), SqlValue::Null, SqlValue::Null, SqlValue::Null));
    assert!(item.unwrap() == ClipBoardContentType::Text("hello".to_string()));
    assert!(decode_clipboard_row(&row(t("Text"), SqlValue::Null, SqlValue::Null, SqlValue::Null, SqlValue::Null)).is_none());
    assert!(decode_clipboard_row(&row(t("Text"), SqlValue::Integer(4), SqlValue::Null, SqlValue::Null, SqlValue::Null)).is_none());
}

#[test]
fn decode_files_row_drops_empty_lines() {
    let item = decode_clipboard_row(&row(t("Files"), t("/a\n\n/b\n"), SqlValue::Null, SqlValue::Null, SqlValue::Null)).unwrap();
    match item {
        ClipBoardContentType::Files(f, img) => {
            assert_eq!(f, vec!["/a".to_string(), "/b".to_string()]);
            assert!(img.is_none());
        },
        _ => panic!("expected files"),
    }
}

#[test]
fn decode_files_row_with_image() {
    let item = decode_clipboard_row(&row(
        t("Files"),
        t("/a"),
        SqlValue::Integer(2),
        SqlValue::Integer(3),
        SqlValue::Blob(vec![1, 2]),
    ))
    .unwrap();
    match item {
        ClipBoardContentType::Files(f, Some(img)) => {
            assert_eq!(f, vec!["/a".to_string()]);
            assert_eq!((img.width, img.height, img.bytes), (2, 3, vec![1, 2]));
        },
        _ => panic!("expected files with image"),
    }
    assert!(decode_clipboard_row(&row(t("Files"), t("/a"), SqlValue::Null, SqlValue::Integer(3), SqlValue::Blob(vec![1]))).is_none());
    assert!(decode_clipboard_row(&row(t("Files"), t("/a"), SqlValue::Null, SqlValue::Null, t("x"))).is_none());
    assert!(decode_clipboard_row(&row(t("Files"), SqlValue::Null, SqlValue::Null, SqlValue::Null, SqlValue::Null)).is_none());
}

#[test]
fn decode_image_row() {
    let item = decode_clipboard_row(&row(
        t("Image"),
        SqlValue::Null,
        SqlValue::Integer(4),
        SqlValue::Integer(5),
        SqlValue::Blob(vec![9]),
    ))
    .unwrap();
    match item {
        ClipBoardContentType::Image(img) => assert_eq!((img.width, img.height, img.bytes), (4, 5, vec![9])),
        _ => panic!("expected image"),
    }
    assert!(decode_clipboard_row(&row(t("Image"), SqlValue::Null, SqlValue::Integer(4), SqlValue::Integer(5), SqlValue::Null)).is_none());
    assert!(decode_clipboard_row(&row(SqlValue::Null, t("x"), SqlValue::Null, SqlValue::Null, SqlValue::Null)).is_none());
    let odd = decode_clipboard_row(&row(t("Other"), SqlValue::Null, SqlValue::Integer(1), SqlValue::Integer(1), SqlValue::Blob(vec![])));
    assert!(matches!(odd, Some(ClipBoardContentType::Image(_))));
}

#[test]
fn history_keeps_readable_rows_in_order() {
    let rows = vec![
        row(t("Text"), t("one"), SqlValue::Null, SqlValue::Null, SqlValue::Null),
        row(t("Text"), SqlValue::Other, SqlValue::Null, SqlValue::Null, SqlValue::Null),
        row(t("Files"), t("/x"), SqlValue::Null, SqlValue::Null, SqlValue::Null),
    ];
    let items = clipboard_history_from_rows(&rows);
    assert_eq!(items.len(), 2);
    assert!(items[0] == ClipBoardContentType::Text("one".to_string()));
    assert!(items[1] == ClipBoardContentType::Files(vec!["/x".to_string()], None));
}

fn stored_row_of(item: &ClipBoardContentType) -> ClipboardRow {
    let ins = save_clipboard_item_statement(item);
    let p = ins.params;
    let kind = if ins.sql.contains("'Text'") { "Text" } else if ins.sql.contains("'Image'") { "Image" } else { "Files" };
    let mut r = row(t(kind), SqlValue::Null, SqlValue::Null, SqlValue::Null, SqlValue::Null);
    let mut it = p.into_iter();
    if ins.sql.contains("content") {
        r.content = it.next().unwrap();
    }
    if ins.sql.contains("image_width") {
        r.width = it.next().unwrap();
        r.height = it.next().unwrap();
        r.bytes = it.next().unwrap();
    }
    r
}

#[test]
fn saved_items_read_back() {
    let items = vec![
        ClipBoardContentType::Text("multi\nline\n".to_string()),
        ClipBoardContentType::Image(image(usize::MAX, 7, &[1, 2, 3])),
        ClipBoardContentType::Files(vec!["/a".to_string(), "/b".to_string()], None),
        ClipBoardContentType::Files(vec!["/a".to_string()], Some(image(2, 2, &[4]))),
    ];
    for item in &items {
        let back = decode_clipboard_row(&stored_row_of(item)).unwrap();
        assert!(back == *item);
        if let (ClipBoardContentType::Image(a), ClipBoardContentType::Image(b)) = (&back, item) {
            assert_eq!((a.width, a.height), (b.width, b.height));
        }
    }
}

#[test]
fn empty_file_paths_do_not_read_back() {
    let item = ClipBoardContentType::Files(vec!["".to_string()], None);
    let back = decode_clipboard_row(&stored_row_of(&item)).unwrap();
    assert!(back == ClipBoardContentType::Files(vec![], None));
}

#[test]
fn ranking_statement() {
    let st = save_ranking_statement("Safari", 12);
    assert_eq!(
        st.sql,
        "INSERT INTO rankings (name, rank) VALUES (?1, ?2)\n             ON CONFLICT(name) DO UPDATE SET rank = excluded.rank"
    );
    assert_eq!(param_summary(&st.params), vec!["text Safari", "int 12"]);
}

#[test]
fn rankings_keep_last_readable_row_per_name() {
    let rows = vec![
        (t("Safari"), SqlValue::Integer(1)),
        (t("Mail"), SqlValue::Integer(-4)),
        (t("Safari"), SqlValue::Integer(9)),
        (t("Notes"), SqlValue::Integer(1 << 40)),
        (SqlValue::Integer(3), SqlValue::Integer(3)),
        (t("Mail"), t("x")),
    ];
    let mut r = rankings_from_rows(&rows);
    r.sort();
    assert_eq!(r, vec![("Mail".to_string(), -4), ("Safari".to_string(), 9)]);
}

#[test]
fn database_path_under_home() {
    assert_eq!(database_path("/Users/me"), "/Users/me/.config/rustcast/rustcast.db");
    assert_eq!(database_path("/"), "//.config/rustcast/rustcast.db");
}

#[test]
fn file_paths_read_back_as_their_nonempty_lines() {
    let item = ClipBoardContentType::Files(vec!["a".to_string(), "".to_string(), "b\nc".to_string()], None);
    let back = decode_clipboard_row(&stored_row_of(&item)).unwrap();
    assert!(back == ClipBoardContentType::Files(vec!["a".to_string(), "b".to_string(), "c".to_string()], None));
}

#[test]
fn history_query() {
    let q = clipboard_history_statement(25);
    assert_eq!(
        q.sql,
        "SELECT type, content, image_width, image_height, image_bytes FROM clipboard ORDER BY created_at DESC LIMIT ?1"
    );
    assert_eq!(param_summary(&q.params), vec!["int 25"]);
}
