//! Text operations with their specifications: prefixes, lines, joining and splitting.

use vstd::prelude::*;
use vstd::std_specs::iter::IteratorSpec;
use vstd::string::*;
use vstd::utf8::{decode_utf8, encode_utf8, is_char_boundary};

verus! {

/// `s` without its leading `prefix`, when `s` starts with `prefix`.
pub open spec fn strip_prefix_spec(s: Seq<char>, prefix: Seq<char>) -> Option<Seq<char>> {
    if prefix.len() <= s.len() && s.take(prefix.len() as int) == prefix {
        Some(s.skip(prefix.len() as int))
    } else {
        None
    }
}

/// Compares two texts character by character.
pub fn text_eq(a: &str, b: &str) -> (r: bool)
    ensures
        r == (a@ == b@),
{
    a.to_owned() == b.to_owned()
}

/// Removes `prefix` from the start of `s`; `None` when `s` does not start with it.
pub fn strip_prefix(s: &str, prefix: &str) -> (r: Option<String>)
    ensures
        match r {
            Some(t) => strip_prefix_spec(s@, prefix@) == Some(t@),
            None => strip_prefix_spec(s@, prefix@) is None,
        },
{
    let n = s.unicode_len();
    let m = prefix.unicode_len();
    if m <= n && text_eq(s.substring_char(0, m), prefix) {
        Some(s.substring_char(m, n).to_owned())
    } else {
        None
    }
}

/// The first `n` bytes of the UTF-8 encoding of `s`, read back as text, when they end
/// on a character boundary; otherwise all of `s`.
pub open spec fn byte_prefix_or_all(s: Seq<char>, n: int) -> Seq<char> {
    let bytes = encode_utf8(s);
    if n <= bytes.len() && is_char_boundary(bytes, n) {
        decode_utf8(bytes.take(n))
    } else {
        s
    }
}

/// Cutting a text at a byte count gives the whole text, or a beginning of it that
/// takes exactly that many bytes in UTF-8.
pub proof fn lemma_byte_prefix_shape(s: Seq<char>, n: int)
    ensures
        byte_prefix_or_all(s, n).len() <= s.len(),
        byte_prefix_or_all(s, n) == s.take(byte_prefix_or_all(s, n).len() as int),
        byte_prefix_or_all(s, n) == s || encode_utf8(byte_prefix_or_all(s, n)).len() == n,
{
    let bytes = encode_utf8(s);
    let p = byte_prefix_or_all(s, n);
    vstd::utf8::encode_utf8_valid_utf8(s);
    vstd::utf8::encode_utf8_decode_utf8(s);
    if n <= bytes.len() && is_char_boundary(bytes, n) {
        assert(bytes.take(n) =~= bytes.subrange(0, n));
        vstd::utf8::decode_utf8_split(bytes, n);
        vstd::utf8::valid_utf8_split(bytes, n);
        vstd::utf8::decode_utf8_encode_utf8(bytes.subrange(0, n));
        let rest = decode_utf8(bytes.subrange(n, bytes.len() as int));
        assert(s =~= p + rest);
        assert(p =~= s.take(p.len() as int));
    } else {
        assert(p =~= s.take(p.len() as int));
    }
}

/// Position of the first line feed in `s`, or the length of `s` when there is none.
pub open spec fn line_feed_index(s: Seq<char>) -> int
    decreases s.len(),
{
    if s.len() == 0 {
        0
    } else if s[0] == '\n' {
        0
    } else {
        1 + line_feed_index(s.drop_first())
    }
}

/// The first line of `s`: the text before the first line feed, without a carriage
/// return that directly precedes that line feed; all of `s` when it holds no line feed.
pub open spec fn first_line_spec(s: Seq<char>) -> Seq<char> {
    let k = line_feed_index(s);
    if k < s.len() && k > 0 && s[k - 1] == '\r' {
        s.take(k - 1)
    } else {
        s.take(k)
    }
}

/// The first line of a text holds no line feed and begins the text.
pub proof fn lemma_first_line_is_prefix(s: Seq<char>)
    ensures
        forall|i: int| 0 <= i < first_line_spec(s).len() ==> first_line_spec(s)[i] != '\n',
        first_line_spec(s).len() <= s.len(),
        first_line_spec(s) == s.take(first_line_spec(s).len() as int),
{
    lemma_line_feed_index(s);
    let k = line_feed_index(s);
    let l = first_line_spec(s);
    assert forall|i: int| 0 <= i < l.len() implies l[i] != '\n' by {
        assert(l[i] == s[i]);
    }
    assert(l =~= s.take(l.len() as int));
}

pub proof fn lemma_line_feed_index(s: Seq<char>)
    ensures
        0 <= line_feed_index(s) <= s.len(),
        line_feed_index(s) < s.len() ==> s[line_feed_index(s)] == '\n',
        forall|j: int| 0 <= j < line_feed_index(s) ==> s[j] != '\n',
    decreases s.len(),
{
    if s.len() > 0 && s[0] != '\n' {
        lemma_line_feed_index(s.drop_first());
        assert forall|j: int| 0 <= j < line_feed_index(s) implies s[j] != '\n' by {
            if j > 0 {
                assert(s[j] == s.drop_first()[j - 1]);
            }
        }
    }
}

proof fn lemma_line_feed_index_unique(s: Seq<char>, k: int)
    requires
        0 <= k <= s.len(),
        k < s.len() ==> s[k] == '\n',
        forall|j: int| 0 <= j < k ==> s[j] != '\n',
    ensures
        line_feed_index(s) == k,
    decreases s.len(),
{
    if s.len() > 0 && k > 0 {
        assert forall|j: int| 0 <= j < k - 1 implies s.drop_first()[j] != '\n' by {
            assert(s.drop_first()[j] == s[j + 1]);
        }
        lemma_line_feed_index_unique(s.drop_first(), k - 1);
    }
}

/// `s.get(0..n).unwrap_or(s)`: the first `n` bytes of `s` when they form whole
/// characters, else all of `s`.
pub fn byte_prefix(s: &str, n: usize) -> (r: String)
    ensures
        r@ == byte_prefix_or_all(s@, n as int),
{
    broadcast use vstd::utf8::encode_utf8_decode_utf8;
    let byte_len = s.as_bytes().len();
    if n <= byte_len && s.is_char_boundary(n) {
        let (head, _) = s.split_at(n);
        head.to_owned()
    } else {
        s.to_owned()
    }
}

/// `s.lines().next().unwrap_or("")`: the first line of `s`.
pub fn first_line(s: &str) -> (r: String)
    ensures
        r@ == first_line_spec(s@),
{
    broadcast use vstd::string::group_string_axioms;
    let len = s.unicode_len();
    let mut chars = s.chars();
    let mut k: usize = 0;
    let mut prev_cr = false;
    let mut found = false;
    while k < len
        invariant_except_break
            !found,
            chars.obeys_prophetic_iter_laws(),
            chars.remaining() == s@.skip(k as int),
        invariant
            len == s@.len(),
            k <= len,
            forall|j: int| 0 <= j < k ==> s@[j] != '\n',
            prev_cr == (k > 0 && s@[k - 1] == '\r'),
        ensures
            found ==> k < len && s@[k as int] == '\n',
            !found ==> k == len,
        decreases len - k,
    {
        let next = chars.next();
        assert(s@.skip(k as int)[0] == s@[k as int]);
        assert(s@.skip(k as int).drop_first() =~= s@.skip(k + 1));
        match next {
            Some(c) => {
                if c == '\n' {
                    found = true;
                    break;
                }
                prev_cr = c == '\r';
                k = k + 1;
            },
            None => {
                k = len;
            },
        }
    }
    proof {
        lemma_line_feed_index_unique(s@, k as int);
    }
    if found && prev_cr {
        s.substring_char(0, k - 1).to_owned()
    } else {
        s.substring_char(0, k).to_owned()
    }
}

/// The decimal digit character for `d < 10`.
pub open spec fn digit_char(d: nat) -> char {
    ((d + 48) as u8) as char
}

/// Decimal text of `n`, most significant digit first, without sign or padding.
pub open spec fn decimal(n: nat) -> Seq<char>
    decreases n,
{
    if n < 10 {
        seq![digit_char(n)]
    } else {
        decimal(n / 10).push(digit_char(n % 10))
    }
}

/// The one-character text of the decimal digit `d`.
fn digit_text(d: usize) -> (r: &'static str)
    requires
        d < 10,
    ensures
        r@ == seq![digit_char(d as nat)],
{
    proof {
        reveal_strlit("0");
        reveal_strlit("1");
        reveal_strlit("2");
        reveal_strlit("3");
        reveal_strlit("4");
        reveal_strlit("5");
        reveal_strlit("6");
        reveal_strlit("7");
        reveal_strlit("8");
        reveal_strlit("9");
    }
    match d {
        0 => "0",
        1 => "1",
        2 => "2",
        3 => "3",
        4 => "4",
        5 => "5",
        6 => "6",
        7 => "7",
        8 => "8",
        9 => "9",
        _ => "9",
    }
}

/// Decimal text of `n`, as `n.to_string()` writes it.
pub fn decimal_text(n: usize) -> (r: String)
    ensures
        r@ == decimal(n as nat),
    decreases n,
{
    if n < 10 {
        digit_text(n).to_owned()
    } else {
        let mut r = decimal_text(n / 10);
        r.append(digit_text(n % 10));
        r
    }
}

/// The texts of `list` joined by line feeds.
pub open spec fn join_lines(list: Seq<Seq<char>>) -> Seq<char>
    decreases list.len(),
{
    if list.len() == 0 {
        Seq::empty()
    } else if list.len() == 1 {
        list[0]
    } else {
        join_lines(list.drop_last()) + seq!['\n'] + list.last()
    }
}

/// The pieces of `s` between line feeds, leaving out the empty ones.
pub open spec fn nonempty_lines(s: Seq<char>) -> Seq<Seq<char>>
    decreases s.len(),
{
    if s.len() == 0 {
        Seq::empty()
    } else {
        let k = line_feed_index(s);
        proof {
            lemma_line_feed_index(s);
        }
        let rest = if k < s.len() {
            nonempty_lines(s.skip(k + 1))
        } else {
            Seq::empty()
        };
        if k > 0 {
            seq![s.take(k)] + rest
        } else {
            rest
        }
    }
}

/// A text that can stand as one line: not empty, and without a line feed.
pub open spec fn is_single_line(t: Seq<char>) -> bool {
    &&& t.len() > 0
    &&& forall|i: int| 0 <= i < t.len() ==> t[i] != '\n'
}

proof fn lemma_join_lines_front(list: Seq<Seq<char>>)
    requires
        list.len() >= 2,
    ensures
        join_lines(list) == list[0] + seq!['\n'] + join_lines(list.drop_first()),
    decreases list.len(),
{
    let dl = list.drop_last();
    let df = list.drop_first();
    if list.len() > 2 {
        lemma_join_lines_front(dl);
        assert(dl.drop_first() =~= df.drop_last());
        assert(df.last() == list.last());
        assert(dl[0] == list[0]);
        assert(join_lines(df) == join_lines(df.drop_last()) + seq!['\n'] + df.last());
        assert(join_lines(list) =~= list[0] + seq!['\n'] + join_lines(df));
    } else {
        assert(df.len() == 1);
        assert(dl.len() == 1);
        assert(join_lines(df) == list[1]);
        assert(join_lines(dl) == list[0]);
        assert(join_lines(list) =~= list[0] + seq!['\n'] + join_lines(df));
    }
}

/// Joining single-line texts by line feeds and splitting the result at line feeds,
/// leaving out empty pieces, gives back the same texts.
pub proof fn lemma_split_join_lines(list: Seq<Seq<char>>)
    requires
        forall|i: int| 0 <= i < list.len() ==> is_single_line(#[trigger] list[i]),
    ensures
        nonempty_lines(join_lines(list)) == list,
    decreases list.len(),
{
    if list.len() == 0 {
        assert(nonempty_lines(join_lines(list)) =~= list);
    } else if list.len() == 1 {
        let t = list[0];
        assert(is_single_line(t));
        lemma_line_feed_index_unique(t, t.len() as int);
        assert(t.take(t.len() as int) =~= t);
        assert(nonempty_lines(t) =~= seq![t]);
        assert(list =~= seq![t]);
    } else {
        lemma_join_lines_front(list);
        let t = list[0];
        assert(is_single_line(t));
        let rest = list.drop_first();
        assert forall|i: int| 0 <= i < rest.len() implies is_single_line(#[trigger] rest[i]) by {
            assert(rest[i] == list[i + 1]);
        }
        lemma_split_join_lines(rest);
        let s = t + seq!['\n'] + join_lines(rest);
        lemma_line_feed_index_unique(s, t.len() as int);
        assert(s.take(t.len() as int) =~= t);
        assert(s.skip(t.len() as int + 1) =~= join_lines(rest));
        assert(nonempty_lines(s) =~= seq![t] + rest);
        assert(list =~= seq![t] + rest);
    }
}

/// The non-empty pieces between line feeds of every text of `list`, in order.
pub open spec fn lines_of_all(list: Seq<Seq<char>>) -> Seq<Seq<char>>
    decreases list.len(),
{
    if list.len() == 0 {
        Seq::empty()
    } else {
        lines_of_all(list.drop_last()) + nonempty_lines(list.last())
    }
}

/// Splitting two texts joined by a line feed splits each of them.
pub proof fn lemma_nonempty_lines_concat(a: Seq<char>, b: Seq<char>)
    ensures
        nonempty_lines(a + seq!['\n'] + b) == nonempty_lines(a) + nonempty_lines(b),
    decreases a.len(),
{
    let s = a + seq!['\n'] + b;
    lemma_line_feed_index(a);
    let k = line_feed_index(a);
    assert forall|j: int| 0 <= j < k implies s[j] != '\n' by {
        assert(s[j] == a[j]);
    }
    lemma_line_feed_index_unique(s, k);
    assert(s.take(k) =~= a.take(k));
    if k == a.len() {
        assert(s.skip(k + 1) =~= b);
        if a.len() > 0 {
            assert(a.take(k) =~= a);
            assert(nonempty_lines(a) =~= seq![a]);
        } else {
            assert(nonempty_lines(a) =~= Seq::<Seq<char>>::empty());
        }
        assert(nonempty_lines(s) =~= nonempty_lines(a) + nonempty_lines(b));
    } else {
        let rest = a.skip(k + 1);
        lemma_nonempty_lines_concat(rest, b);
        assert(s.skip(k + 1) =~= rest + seq!['\n'] + b);
        assert(nonempty_lines(s) =~= nonempty_lines(a) + nonempty_lines(b));
    }
}

/// Joining texts by line feeds and splitting the result at line feeds, leaving out
/// empty pieces, gives the non-empty lines of the texts, in order.
pub proof fn lemma_split_join_any(list: Seq<Seq<char>>)
    ensures
        nonempty_lines(join_lines(list)) == lines_of_all(list),
    decreases list.len(),
{
    if list.len() == 0 {
        assert(nonempty_lines(join_lines(list)) =~= lines_of_all(list));
    } else if list.len() == 1 {
        assert(list.drop_last().len() == 0);
        assert(lines_of_all(list.drop_last()) == Seq::<Seq<char>>::empty());
        assert(list.last() == list[0]);
        assert(lines_of_all(list) =~= nonempty_lines(list[0]));
    } else {
        lemma_split_join_any(list.drop_last());
        lemma_nonempty_lines_concat(join_lines(list.drop_last()), list.last());
    }
}

/// `list.join("\n")`.
pub fn join_with_line_feeds(list: &Vec<String>) -> (r: String)
    ensures
        r@ == join_lines(list.deep_view()),
{
    let mut r = String::new();
    let ghost view = list.deep_view();
    for i in 0..list.len()
        invariant
            view == list.deep_view(),
            r@ == join_lines(view.take(i as int)),
    {
        let ghost prefix = view.take(i + 1);
        if i != 0 {
            r.append("\n");
        }
        r.append(list[i].as_str());
        proof {
            reveal_strlit("\n");
            if i == 0 {
                assert(prefix.len() == 1);
                assert(r@ =~= join_lines(prefix));
            } else {
                assert(prefix.drop_last() =~= view.take(i as int));
                assert(prefix.last() == list[i as int]@);
                assert(r@ =~= join_lines(prefix));
            }
        }
    }
    assert(view.take(list.len() as int) =~= view);
    r
}

proof fn lemma_nonempty_lines_at(s: Seq<char>, start: int, k: int)
    requires
        0 <= start <= k <= s.len(),
        forall|j: int| start <= j < k ==> s[j] != '\n',
        k < s.len() ==> s[k] == '\n',
    ensures
        nonempty_lines(s.skip(start)) == (if k > start {
            seq![s.subrange(start, k)]
        } else {
            Seq::<Seq<char>>::empty()
        }) + (if k < s.len() {
            nonempty_lines(s.skip(k + 1))
        } else {
            Seq::<Seq<char>>::empty()
        }),
{
    let t = s.skip(start);
    if t.len() == 0 {
        assert(nonempty_lines(t) =~= Seq::<Seq<char>>::empty());
    } else {
        assert forall|j: int| 0 <= j < k - start implies t[j] != '\n' by {
            assert(t[j] == s[start + j]);
        }
        lemma_line_feed_index_unique(t, k - start);
        assert(t.take(k - start) =~= s.subrange(start, k));
        if k < s.len() {
            assert(t.skip(k - start + 1) =~= s.skip(k + 1));
        }
        if k > start {
            assert(nonempty_lines(t) =~= seq![s.subrange(start, k)] + (if k < s.len() {
                nonempty_lines(s.skip(k + 1))
            } else {
                Seq::<Seq<char>>::empty()
            }));
        } else {
            assert(nonempty_lines(t) =~= Seq::<Seq<char>>::empty() + (if k < s.len() {
                nonempty_lines(s.skip(k + 1))
            } else {
                Seq::<Seq<char>>::empty()
            }));
        }
    }
}

/// `s.split('\n')` without the empty pieces.
pub fn split_nonempty_lines(s: &str) -> (r: Vec<String>)
    ensures
        r.deep_view() == nonempty_lines(s@),
{
    broadcast use vstd::string::group_string_axioms;
    let len = s.unicode_len();
    let mut chars = s.chars();
    let mut out: Vec<String> = Vec::new();
    let mut start: usize = 0;
    let mut k: usize = 0;
    assert(s@.skip(0) =~= s@);
    assert(out.deep_view() + nonempty_lines(s@.skip(0)) =~= nonempty_lines(s@));
    while k < len
        invariant
            len == s@.len(),
            start <= k <= len,
            chars.obeys_prophetic_iter_laws(),
            chars.remaining() == s@.skip(k as int),
            forall|j: int| start <= j < k ==> s@[j] != '\n',
            out.deep_view() + nonempty_lines(s@.skip(start as int)) == nonempty_lines(s@),
        decreases len - k,
    {
        let next = chars.next();
        assert(s@.skip(k as int)[0] == s@[k as int]);
        assert(s@.skip(k as int).drop_first() =~= s@.skip(k + 1));
        let c = match next {
            Some(c) => c,
            None => {
                assert(false);
                '\n'
            },
        };
        if c == '\n' {
            proof {
                lemma_nonempty_lines_at(s@, start as int, k as int);
            }
            let ghost old_out = out.deep_view();
            if k > start {
                out.push(s.substring_char(start, k).to_owned());
                assert(out.deep_view() =~= old_out + seq![s@.subrange(start as int, k as int)]);
            }
            start = k + 1;
        }
        k = k + 1;
    }
    proof {
        lemma_nonempty_lines_at(s@, start as int, k as int);
    }
    let ghost old_out = out.deep_view();
    if k > start {
        out.push(s.substring_char(start, k).to_owned());
        assert(out.deep_view() =~= old_out + seq![s@.subrange(start as int, k as int)]);
    }
    out
}

} // verus!
