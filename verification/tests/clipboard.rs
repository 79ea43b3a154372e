use rustcast::clipboard::{file_name_of, AppCommand, ClipBoardContentType, Function, ImageData};

fn image(width: usize, height: usize, bytes: &[u8]) -> ImageData {
    ImageData { width, height, bytes: bytes.to_vec() }
}

fn files(paths: &[&str], img: Option<ImageData>) -> ClipBoardContentType {
    ClipBoardContentType::Files(paths.iter().map(|p| p.to_string()).collect(), img)
}

fn text(t: &str) -> ClipBoardContentType {
    ClipBoardContentType::Text(t.to_string())
}

#[test]
fn texts_compare_by_content() {
    assert!(text("hello") == text("hello"));
    assert!(text("hello") != text("Hello"));
    assert!(text("hello") != ClipBoardContentType::Image(image(1, 1, b"hello")));
}

#[test]
fn images_compare_by_bytes_only() {
    let a = ClipBoardContentType::Image(image(2, 1, &[1, 2, 3, 4, 5, 6, 7, 8]));
    let b = ClipBoardContentType::Image(image(1, 2, &[1, 2, 3, 4, 5, 6, 7, 8]));
    let c = ClipBoardContentType::Image(image(2, 1, &[1, 2, 3, 4, 5, 6, 7, 9]));
    assert!(a == b);
    assert!(a != c);
}

#[test]
fn file_lists_compare_by_paths_and_image_bytes() {
    assert!(files(&["/a", "/b"], None) == files(&["/a", "/b"], None));
    assert!(files(&["/a", "/b"], None) != files(&["/b", "/a"], None));
    assert!(files(&["/a"], None) != files(&["/a"], Some(image(1, 1, &[0]))));
    assert!(files(&["/a"], Some(image(1, 1, &[0]))) == files(&["/a"], Some(image(3, 3, &[0]))));
    assert!(files(&["/a"], Some(image(1, 1, &[0]))) != files(&["/a"], Some(image(1, 1, &[1]))));
    assert!(files(&["/a"], None) != text("/a"));
}

#[test]
fn clone_keeps_content() {
    let items = vec![
        text("x"),
        ClipBoardContentType::Image(image(4, 5, &[9, 8])),
        files(&["/a", "/b"], Some(image(1, 2, &[3]))),
    ];
    for item in &items {
        let c = item.clone();
        assert!(c == *item);
        if let (ClipBoardContentType::Image(a), ClipBoardContentType::Image(b)) = (&c, item) {
            assert_eq!((a.width, a.height), (b.width, b.height));
        }
    }
}

fn copied_item(app: &rustcast::clipboard::App) -> &ClipBoardContentType {
    match &app.open_command {
        AppCommand::Function(Function::CopyToClipboard(item)) => item,
    }
}

#[test]
fn short_text_entry() {
    let item = text("hello world");
    let app = item.to_app();
    assert_eq!(app.ranking, 0);
    assert_eq!(app.display_name, "hello world");
    assert_eq!(app.search_name, "hello world");
    assert_eq!(app.desc, "Clipboard Item");
    assert!(*copied_item(&app) == item);
}

#[test]
fn long_text_entry_is_cut_at_25_bytes() {
    let item = text("abcdefghijklmnopqrstuvwxyz0123456789");
    let app = item.to_app();
    assert_eq!(app.search_name, "abcdefghijklmnopqrstuvwxy");
    assert_eq!(app.display_name, "abcdefghijklmnopqrstuvwxy");
    assert!(*copied_item(&app) == item);
}

#[test]
fn text_cut_inside_a_character_keeps_whole_text() {
    let t = format!("{}é tail", "a".repeat(24));
    let app = text(&t).to_app();
    assert_eq!(app.search_name, t);
    let t2 = format!("{}é tail", "a".repeat(23));
    let app2 = text(&t2).to_app();
    assert_eq!(app2.search_name, format!("{}é", "a".repeat(23)));
}

#[test]
fn multiline_text_entry_shows_first_line() {
    let app = text("first line\r\nsecond").to_app();
    assert_eq!(app.display_name, "first line");
    assert_eq!(app.search_name, "first line\r\nsecond");
    let app = text("\nsecond").to_app();
    assert_eq!(app.display_name, "");
    let app = text("").to_app();
    assert_eq!(app.display_name, "");
    assert_eq!(app.search_name, "");
    let app = text("lone\rreturn").to_app();
    assert_eq!(app.display_name, "lone\rreturn");
}

#[test]
fn image_entry() {
    let app = ClipBoardContentType::Image(image(1, 1, &[0, 0, 0, 0])).to_app();
    assert_eq!(app.display_name, "Image");
    assert_eq!(app.search_name, "Image");
    assert_eq!(app.desc, "Clipboard Item");
}

#[test]
fn single_file_entry_uses_file_name() {
    let app = files(&["/Users/me/Documents/report.pdf"], None).to_app();
    assert_eq!(app.display_name, "report.pdf");
    assert_eq!(app.search_name, "report.pdf");
    assert_eq!(app.desc, "/Users/me/Documents/report.pdf");
    let app = files(&["/tmp/dir/"], None).to_app();
    assert_eq!(app.display_name, "dir");
}

#[test]
fn single_file_without_name_uses_path() {
    let app = files(&["/"], None).to_app();
    assert_eq!(app.display_name, "/");
    assert_eq!(app.desc, "/");
    let app = files(&["/tmp/.."], None).to_app();
    assert_eq!(app.display_name, "/tmp/..");
}

#[test]
fn several_files_entry_counts_them() {
    let app = files(&["/a", "/b", "/c"], None).to_app();
    assert_eq!(app.display_name, "3 Files");
    assert_eq!(app.search_name, "3 Files");
    assert_eq!(app.desc, "Multiple files copied");
    let app = files(&[], None).to_app();
    assert_eq!(app.display_name, "0 Files");
    let many: Vec<String> = (0..12).map(|i| format!("/f{}", i)).collect();
    let app = ClipBoardContentType::Files(many, None).to_app();
    assert_eq!(app.display_name, "12 Files");
}

#[test]
fn entry_with_given_file_name() {
    let item = files(&["/x/y.txt"], None);
    let app = item.to_app_with_file_name("y.txt");
    assert_eq!(app.display_name, "y.txt");
    let app = item.to_app_with_file_name("");
    assert_eq!(app.display_name, "/x/y.txt");
    let app = text("abc").to_app_with_file_name("ignored");
    assert_eq!(app.display_name, "abc");
}

#[test]
fn single_file_entry_named_after_final_component() {
    let item = files(&["/Users/me/notes.txt"], None);
    let app = item.to_app();
    assert_eq!(app.display_name, "notes.txt");
    assert_eq!(app.search_name, "notes.txt");
    assert_eq!(app.desc, "/Users/me/notes.txt");
    assert_eq!(files(&["a/./"], None).to_app().display_name, "a");
    assert_eq!(files(&["."], None).to_app().display_name, ".");
    assert_eq!(files(&["notes"], None).to_app().display_name, "notes");
    assert_eq!(files(&["/a/b/.."], None).to_app().display_name, "/a/b/..");
}

#[test]
fn file_names_of_paths() {
    for p in ["/Users/me/notes.txt", "/tmp/dir/", "/", "", ".", "..", "a/./", "a/..", "//x//", "./a", "a/b/.", "x"] {
        let expected = std::path::Path::new(p)
            .file_name()
            .map(|n| n.to_string_lossy().to_string())
            .unwrap_or_default();
        assert_eq!(file_name_of(p), expected, "path {:?}", p);
    }
}
