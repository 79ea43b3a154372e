//! Clipboard history items: when two count as the same, and the launcher entry shown
//! for each.

use vstd::prelude::*;
use vstd::string::StrSliceExecFns;
use vstd::string::StringExecFns;
use vstd::slice::slice_to_vec;
use vstd::std_specs::cmp::PartialEqSpecImpl;
use vstd::std_specs::iter::IteratorSpec;

use crate::text::{
    byte_prefix, byte_prefix_or_all, decimal, decimal_text, first_line, first_line_spec,
    lemma_first_line_is_prefix, text_eq,
};

verus! {

/// Pixels of a copied image: `width` by `height`, RGBA bytes.
#[derive(Debug)]
pub struct ImageData {
    pub width: usize,
    pub height: usize,
    pub bytes: Vec<u8>,
}

pub struct ImageView {
    pub width: usize,
    pub height: usize,
    pub bytes: Seq<u8>,
}

impl View for ImageData {
    type V = ImageView;

    open spec fn view(&self) -> ImageView {
        ImageView { width: self.width, height: self.height, bytes: self.bytes@ }
    }
}

/// The kinds of clipboard content that can be kept in the history, with their contents.
#[derive(Debug)]
pub enum ClipBoardContentType {
    Text(String),
    Image(ImageData),
    /// Copied file paths, with the image the pasteboard offered alongside them, if any.
    Files(Vec<String>, Option<ImageData>),
}

/// The mathematical model of a clipboard item.
pub enum ClipContent {
    Text(Seq<char>),
    Image(ImageView),
    Files(Seq<Seq<char>>, Option<ImageView>),
}

pub open spec fn image_view_opt(img: Option<ImageData>) -> Option<ImageView> {
    match img {
        Some(i) => Some(i@),
        None => None,
    }
}

impl View for ClipBoardContentType {
    type V = ClipContent;

    open spec fn view(&self) -> ClipContent {
        match self {
            ClipBoardContentType::Text(t) => ClipContent::Text(t@),
            ClipBoardContentType::Image(i) => ClipContent::Image(i@),
            ClipBoardContentType::Files(f, i) => ClipContent::Files(f.deep_view(), image_view_opt(*i)),
        }
    }
}

/// Copies a list of texts.
pub fn copy_texts(v: &Vec<String>) -> (r: Vec<String>)
    ensures
        r.deep_view() == v.deep_view(),
{
    let mut r: Vec<String> = Vec::new();
    for i in 0..v.len()
        invariant
            r@.len() == i,
            forall|j: int| 0 <= j < i ==> #[trigger] r@[j]@ == v@[j]@,
    {
        r.push(v[i].clone());
    }
    assert(r.deep_view() =~= v.deep_view());
    r
}

impl Clone for ImageData {
    fn clone(&self) -> (r: Self)
        ensures
            r@ == self@,
    {
        ImageData { width: self.width, height: self.height, bytes: slice_to_vec(self.bytes.as_slice()) }
    }
}

impl Clone for ClipBoardContentType {
    fn clone(&self) -> (r: Self)
        ensures
            r@ == self@,
    {
        match self {
            ClipBoardContentType::Text(t) => ClipBoardContentType::Text(t.clone()),
            ClipBoardContentType::Image(i) => ClipBoardContentType::Image(i.clone()),
            ClipBoardContentType::Files(f, i) => {
                let img = match i {
                    Some(x) => Some(x.clone()),
                    None => None,
                };
                ClipBoardContentType::Files(copy_texts(f), img)
            },
        }
    }
}

/// When two clipboard items count as the same: texts by their characters, images by
/// their pixel bytes alone, file lists by their paths and the bytes of the image
/// offered alongside (both absent, or both present with equal bytes).
pub open spec fn same_content(a: ClipContent, b: ClipContent) -> bool {
    match (a, b) {
        (ClipContent::Text(x), ClipContent::Text(y)) => x == y,
        (ClipContent::Image(x), ClipContent::Image(y)) => x.bytes == y.bytes,
        (ClipContent::Files(f1, i1), ClipContent::Files(f2, i2)) => {
            &&& f1 == f2
            &&& match (i1, i2) {
                (Some(x), Some(y)) => x.bytes == y.bytes,
                (None, None) => true,
                _ => false,
            }
        },
        _ => false,
    }
}

/// Compares two byte sequences.
fn bytes_eq(a: &Vec<u8>, b: &Vec<u8>) -> (r: bool)
    ensures
        r == (a@ == b@),
{
    if a.len() != b.len() {
        return false;
    }
    for i in 0..a.len()
        invariant
            a@.len() == b@.len(),
            forall|j: int| 0 <= j < i ==> a@[j] == b@[j],
    {
        if a[i] != b[i] {
            return false;
        }
    }
    assert(a@ =~= b@);
    true
}

/// Compares two lists of texts.
fn texts_eq(a: &Vec<String>, b: &Vec<String>) -> (r: bool)
    ensures
        r == (a.deep_view() == b.deep_view()),
{
    if a.len() != b.len() {
        return false;
    }
    for i in 0..a.len()
        invariant
            a.deep_view().len() == b.deep_view().len(),
            forall|j: int| 0 <= j < i ==> a.deep_view()[j] == b.deep_view()[j],
    {
        if a[i] != b[i] {
            assert(a.deep_view()[i as int] != b.deep_view()[i as int]);
            return false;
        }
    }
    assert(a.deep_view() =~= b.deep_view());
    true
}

impl ClipBoardContentType {
    /// Whether two clipboard items count as the same (see `same_content`).
    pub fn same_as(&self, other: &Self) -> (r: bool)
        ensures
            r == same_content(self@, other@),
    {
        match self {
            ClipBoardContentType::Text(a) => match other {
                ClipBoardContentType::Text(b) => text_eq(a.as_str(), b.as_str()),
                _ => false,
            },
            ClipBoardContentType::Image(a) => match other {
                ClipBoardContentType::Image(b) => bytes_eq(&a.bytes, &b.bytes),
                _ => false,
            },
            ClipBoardContentType::Files(f1, i1) => match other {
                ClipBoardContentType::Files(f2, i2) => {
                    if !texts_eq(f1, f2) {
                        return false;
                    }
                    match i1 {
                        Some(a) => match i2 {
                            Some(b) => bytes_eq(&a.bytes, &b.bytes),
                            None => false,
                        },
                        None => i2.is_none(),
                    }
                },
                _ => false,
            },
        }
    }
}

/// Two texts are the same item exactly when all their characters are equal.
pub proof fn lemma_texts_same_iff_equal(x: Seq<char>, y: Seq<char>)
    ensures
        same_content(ClipContent::Text(x), ClipContent::Text(y)) <==> x == y,
{
}

/// Two images are the same item exactly when their pixel bytes are equal.
pub proof fn lemma_images_same_iff_bytes_equal(x: ImageView, y: ImageView)
    ensures
        same_content(ClipContent::Image(x), ClipContent::Image(y)) <==> x.bytes == y.bytes,
{
}

/// Two file lists are the same item exactly when their paths are equal and either
/// neither carries an image or both carry images with equal bytes.
pub proof fn lemma_files_same_iff(f1: Seq<Seq<char>>, i1: Option<ImageView>, f2: Seq<Seq<char>>, i2: Option<ImageView>)
    ensures
        same_content(ClipContent::Files(f1, i1), ClipContent::Files(f2, i2)) <==> f1 == f2 && (
        (i1 is None && i2 is None) || (i1 is Some && i2 is Some && i1.unwrap().bytes == i2.unwrap().bytes)),
{
}

/// Items of different kinds are never the same.
pub proof fn lemma_kinds_differ(a: ClipContent, b: ClipContent)
    requires
        !((a is Text && b is Text) || (a is Image && b is Image) || (a is Files && b is Files)),
    ensures
        !same_content(a, b),
{
}

/// Counting two clipboard items as the same is an equivalence relation.
pub proof fn lemma_same_content_is_equivalence(a: ClipContent, b: ClipContent, c: ClipContent)
    ensures
        same_content(a, a),
        same_content(a, b) ==> same_content(b, a),
        same_content(a, b) && same_content(b, c) ==> same_content(a, c),
{
}

/// Two copied images with the same pixel bytes count as the same item whatever sizes
/// they report.
pub proof fn lemma_images_compared_by_bytes(x: ImageView, y: ImageView)
    requires
        x.bytes == y.bytes,
    ensures
        same_content(ClipContent::Image(x), ClipContent::Image(y)),
{
}

impl PartialEq for ClipBoardContentType {
    fn eq(&self, other: &Self) -> (r: bool) {
        self.same_as(other)
    }
}

impl PartialEqSpecImpl for ClipBoardContentType {
    open spec fn obeys_eq_spec() -> bool {
        true
    }

    open spec fn eq_spec(&self, other: &Self) -> bool {
        same_content(self@, other@)
    }
}

/// What activating a launcher entry does.
#[derive(Debug)]
pub enum Function {
    /// Puts the item back on the clipboard.
    CopyToClipboard(ClipBoardContentType),
}

#[derive(Debug)]
pub enum AppCommand {
    Function(Function),
}

/// An entry of the launcher's result list.
#[derive(Debug)]
pub struct App {
    pub ranking: i32,
    pub open_command: AppCommand,
    pub desc: String,
    pub display_name: String,
    pub search_name: String,
}

/// Longest prefix, in UTF-8 bytes, of a copied text that names its history entry.
pub open spec fn text_label_bytes() -> int {
    25
}

/// The text an entry is searched by, and its description, for a clipboard item.
/// `file_name` stands for the final component of the path when exactly one file was copied.
pub open spec fn entry_labels(c: ClipContent, file_name: Seq<char>) -> (Seq<char>, Seq<char>) {
    match c {
        ClipContent::Image(_) => ("Image"@, "Clipboard Item"@),
        ClipContent::Text(t) => (byte_prefix_or_all(t, text_label_bytes()), "Clipboard Item"@),
        ClipContent::Files(f, _) => {
            if f.len() == 1 {
                (if file_name.len() == 0 { f[0] } else { file_name }, f[0])
            } else {
                (decimal(f.len()) + " Files"@, "Multiple files copied"@)
            }
        },
    }
}

/// `app` is the launcher entry of clipboard item `c`: ranked 0, searched by the label,
/// shown by the label's first line, and copying `c` back when activated.
pub open spec fn describes(app: App, c: ClipContent, file_name: Seq<char>) -> bool {
    let (search, desc) = entry_labels(c, file_name);
    &&& app.ranking == 0
    &&& app.search_name@ == search
    &&& app.display_name@ == first_line_spec(search)
    &&& app.desc@ == desc
    &&& match app.open_command {
        AppCommand::Function(Function::CopyToClipboard(item)) => item@ == c,
    }
}

/// An entry's name is a single line, and it begins its search text.
pub proof fn lemma_entry_name_is_first_line(app: App, c: ClipContent, file_name: Seq<char>)
    requires
        describes(app, c, file_name),
    ensures
        forall|i: int| 0 <= i < app.display_name@.len() ==> app.display_name@[i] != '\n',
        app.display_name@.len() <= app.search_name@.len(),
        app.display_name@ == app.search_name@.take(app.display_name@.len() as int),
{
    lemma_first_line_is_prefix(app.search_name@);
}

/// Position of the last `/` in `p`, or -1 when there is none.
pub open spec fn last_slash(p: Seq<char>) -> int
    decreases p.len(),
{
    if p.len() == 0 {
        -1
    } else if p.last() == '/' {
        p.len() - 1
    } else {
        last_slash(p.drop_last())
    }
}

pub proof fn lemma_last_slash_bounds(p: Seq<char>)
    ensures
        -1 <= last_slash(p) < p.len(),
    decreases p.len(),
{
    if p.len() > 0 && p.last() != '/' {
        lemma_last_slash_bounds(p.drop_last());
    }
}

/// The final component of a `/`-separated path: the last piece between separators
/// that is neither empty nor `.`; nothing when that piece is `..` or there is none.
pub open spec fn final_component(p: Seq<char>) -> Seq<char>
    decreases p.len(),
{
    let k = last_slash(p);
    proof {
        lemma_last_slash_bounds(p);
    }
    let piece = p.skip(k + 1);
    if piece.len() == 0 || piece == seq!['.'] {
        if k < 0 {
            Seq::empty()
        } else {
            final_component(p.take(k))
        }
    } else if piece == seq!['.', '.'] {
        Seq::empty()
    } else {
        piece
    }
}

/// The name an entry takes for a clipboard item: the final component of the path when
/// exactly one file was copied; nothing otherwise.
pub open spec fn entry_file_name(c: ClipContent) -> Seq<char> {
    match c {
        ClipContent::Files(f, _) => if f.len() == 1 {
            final_component(f[0])
        } else {
            Seq::empty()
        },
        _ => Seq::empty(),
    }
}

proof fn lemma_last_slash_at(p: Seq<char>, k: int)
    requires
        -1 <= k < p.len(),
        k >= 0 ==> p[k] == '/',
        forall|i: int| k < i < p.len() ==> p[i] != '/',
    ensures
        last_slash(p) == k,
    decreases p.len(),
{
    if p.len() > 0 && p.len() - 1 != k {
        lemma_last_slash_at(p.drop_last(), k);
    }
}

/// The characters of `s`, one per element.
fn chars_of(s: &str) -> (r: Vec<char>)
    ensures
        r@ == s@,
{
    broadcast use vstd::string::group_string_axioms;
    let len = s.unicode_len();
    let mut chars = s.chars();
    let mut out: Vec<char> = Vec::new();
    while out.len() < len
        invariant
            len == s@.len(),
            out@.len() <= len,
            out@ == s@.take(out@.len() as int),
            chars.obeys_prophetic_iter_laws(),
            chars.remaining() == s@.skip(out@.len() as int),
        decreases len - out@.len(),
    {
        let k = out.len();
        assert(s@.skip(k as int)[0] == s@[k as int]);
        assert(s@.skip(k as int).drop_first() =~= s@.skip(k + 1));
        match chars.next() {
            Some(c) => {
                out.push(c);
                assert(out@ =~= s@.take(k + 1));
            },
            None => {
                assert(false);
            },
        }
    }
    assert(s@.take(len as int) =~= s@);
    out
}

/// The file name of a path: its final component, as `Path::file_name` gives it with
/// `/` as the separator (the platform this launcher runs on), or "" when there is none.
pub fn file_name_of(path: &str) -> (r: String)
    ensures
        r@ == final_component(path@),
{
    let chars = chars_of(path);
    let mut end: usize = chars.len();
    assert(path@.take(end as int) =~= path@);
    loop
        invariant
            chars@ == path@,
            end <= chars@.len(),
            final_component(path@) == final_component(path@.take(end as int)),
        decreases end,
    {
        let mut j: usize = end;
        while j > 0 && chars[j - 1] != '/'
            invariant
                chars@ == path@,
                j <= end <= chars@.len(),
                forall|i: int| j <= i < end ==> chars@[i] != '/',
            decreases j,
        {
            j = j - 1;
        }
        let ghost t = path@.take(end as int);
        proof {
            lemma_last_slash_at(t, j - 1);
        }
        assert(t.skip(j as int) =~= path@.subrange(j as int, end as int));
        let len = end - j;
        if len == 0 || (len == 1 && chars[j] == '.') {
            if len == 1 {
                assert(t.skip(j as int) =~= seq!['.']);
            }
            if j == 0 {
                return String::new();
            }
            assert(t.take(j - 1) =~= path@.take(j - 1));
            end = j - 1;
        } else if len == 2 && chars[j] == '.' && chars[j + 1] == '.' {
            assert(t.skip(j as int) =~= seq!['.', '.']);
            return String::new();
        } else {
            assert(t.skip(j as int) != seq!['.']) by {
                if len == 1 {
                    assert(t.skip(j as int)[0] == chars@[j as int]);
                }
            }
            assert(t.skip(j as int) != seq!['.', '.']) by {
                if len == 2 {
                    assert(t.skip(j as int)[0] == chars@[j as int]);
                    assert(t.skip(j as int)[1] == chars@[j + 1]);
                }
            }
            return path.substring_char(j, end).to_owned();
        }
    }
}

impl ClipBoardContentType {
    /// The launcher entry for this item, given the file name of the single copied path
    /// (only read when exactly one file was copied).
    pub fn to_app_with_file_name(&self, file_name: &str) -> (r: App)
        ensures
            describes(r, self@, file_name@),
    {
        let (search_name, desc) = match self {
            ClipBoardContentType::Image(_) => ("Image".to_owned(), "Clipboard Item".to_owned()),
            ClipBoardContentType::Text(a) => (byte_prefix(a.as_str(), 25), "Clipboard Item".to_owned()),
            ClipBoardContentType::Files(f, _) => {
                if f.len() == 1 {
                    let name = if file_name.unicode_len() == 0 {
                        f[0].clone()
                    } else {
                        file_name.to_owned()
                    };
                    (name, f[0].clone())
                } else {
                    let mut count = decimal_text(f.len());
                    count.append(" Files");
                    (count, "Multiple files copied".to_owned())
                }
            },
        };
        let display_name = first_line(search_name.as_str());
        App {
            ranking: 0,
            open_command: AppCommand::Function(Function::CopyToClipboard(self.clone())),
            desc,
            display_name,
            search_name,
        }
    }

    /// The launcher entry for this item: its name is the first line of a short label
    /// (the first 25 bytes of a text, "Image", the copied file's name, or "N Files"),
    /// searched by the whole label.
    pub fn to_app(&self) -> (r: App)
        ensures
            describes(r, self@, entry_file_name(self@)),
    {
        let name = match self {
            ClipBoardContentType::Files(f, _) => {
                if f.len() == 1 {
                    file_name_of(f[0].as_str())
                } else {
                    String::new()
                }
            },
            _ => String::new(),
        };
        self.to_app_with_file_name(name.as_str())
    }
}

} // verus!
