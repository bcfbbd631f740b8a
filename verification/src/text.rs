//! Character-level string utilities shared by the path, permalink and
//! content-processing code.

use vstd::prelude::*;
use vstd::string::*;

verus! {

/// The sequence `s` with every trailing `/` removed.
pub open spec fn trim_end_slashes(s: Seq<char>) -> Seq<char>
    decreases s.len(),
{
    if s.len() > 0 && s.last() == '/' {
        trim_end_slashes(s.drop_last())
    } else {
        s
    }
}

/// The sequence `s` with every leading occurrence of `c` removed.
pub open spec fn trim_start_matching(s: Seq<char>, c: char) -> Seq<char>
    decreases s.len(),
{
    if s.len() > 0 && s.first() == c {
        trim_start_matching(s.drop_first(), c)
    } else {
        s
    }
}

/// If everything at or after `end` is a slash and the character just before
/// `end` is not, then trimming trailing slashes yields exactly the prefix.
proof fn lemma_trim_end_is_prefix(s: Seq<char>, end: int)
    requires
        0 <= end <= s.len(),
        forall|i: int| end <= i < s.len() ==> s[i] == '/',
        end > 0 ==> s[end - 1] != '/',
    ensures
        trim_end_slashes(s) == s.subrange(0, end),
    decreases s.len(),
{
    if s.len() == end {
        assert(s.subrange(0, end) =~= s);
    } else {
        assert(s.last() == '/');
        lemma_trim_end_is_prefix(s.drop_last(), end);
        assert(s.drop_last().subrange(0, end) =~= s.subrange(0, end));
    }
}

/// If every character before `start` equals `c` and the character at `start`
/// does not, trimming leading `c`s yields exactly the suffix.
proof fn lemma_trim_start_is_suffix(s: Seq<char>, start: int, c: char)
    requires
        0 <= start <= s.len(),
        forall|i: int| 0 <= i < start ==> s[i] == c,
        start < s.len() ==> s[start] != c,
    ensures
        trim_start_matching(s, c) == s.subrange(start, s.len() as int),
    decreases s.len(),
{
    if start == 0 {
        if s.len() > 0 {
            assert(s.first() != c);
        }
        assert(s.subrange(0, s.len() as int) =~= s);
    } else {
        assert(s.first() == c);
        lemma_trim_start_is_suffix(s.drop_first(), start - 1, c);
        assert(s.drop_first().subrange(start - 1, s.drop_first().len() as int) =~= s.subrange(
            start,
            s.len() as int,
        ));
    }
}

/// Copy of `s` with the trailing slashes removed.
pub fn trim_trailing_slashes(s: &str) -> (r: String)
    ensures
        r@ == trim_end_slashes(s@),
{
    let len = s.unicode_len();
    let mut end = len;
    while end > 0 && s.get_char(end - 1) == '/'
        invariant
            end <= len,
            len == s@.len(),
            forall|i: int| end <= i < s@.len() ==> s@[i] == '/',
        decreases end,
    {
        end = end - 1;
    }
    proof {
        lemma_trim_end_is_prefix(s@, end as int);
    }
    let kept = s.substring_char(0, end);
    kept.to_owned()
}

/// Copy of `s` with the leading occurrences of `c` removed.
pub fn trim_leading_matching(s: &str, c: char) -> (r: String)
    ensures
        r@ == trim_start_matching(s@, c),
{
    let len = s.unicode_len();
    let mut start: usize = 0;
    while start < len && s.get_char(start) == c
        invariant
            start <= len,
            len == s@.len(),
            forall|i: int| 0 <= i < start ==> s@[i] == c,
        decreases len - start,
    {
        start = start + 1;
    }
    proof {
        lemma_trim_start_is_suffix(s@, start as int, c);
    }
    let kept = s.substring_char(start, len);
    kept.to_owned()
}

/// The character for a single decimal digit.
pub open spec fn digit_char(d: int) -> char {
    if d == 0 {
        '0'
    } else if d == 1 {
        '1'
    } else if d == 2 {
        '2'
    } else if d == 3 {
        '3'
    } else if d == 4 {
        '4'
    } else if d == 5 {
        '5'
    } else if d == 6 {
        '6'
    } else if d == 7 {
        '7'
    } else if d == 8 {
        '8'
    } else {
        '9'
    }
}

/// Decimal representation of a non-negative integer, most significant digit
/// first.
pub open spec fn decimal(n: int) -> Seq<char>
    decreases n,
{
    if n < 10 {
        seq![digit_char(n)]
    } else {
        decimal(n / 10).push(digit_char(n % 10))
    }
}

fn digit_str(d: usize) -> (r: &'static str)
    requires
        d < 10,
    ensures
        r@ =~= seq![digit_char(d as int)],
{
    proof {
        reveal_strlit("0");
        reveal_strlit("1");
        reveal_strlit("2");
        reveal_strlit("3");
        reveal_strlit("4");
        reveal_strlit("5");
        reveal_strlit("6");
        reveal_strlit("7");
        reveal_strlit("8");
        reveal_strlit("9");
    }
    if d == 0 {
        "0"
    } else if d == 1 {
        "1"
    } else if d == 2 {
        "2"
    } else if d == 3 {
        "3"
    } else if d == 4 {
        "4"
    } else if d == 5 {
        "5"
    } else if d == 6 {
        "6"
    } else if d == 7 {
        "7"
    } else if d == 8 {
        "8"
    } else {
        "9"
    }
}

/// Render `n` in decimal.
pub fn usize_to_string(n: usize) -> (r: String)
    ensures
        r@ == decimal(n as int),
    decreases n,
{
    if n < 10 {
        digit_str(n).to_owned()
    } else {
        let mut s = usize_to_string(n / 10);
        s.append(digit_str(n % 10));
        proof {
            assert(decimal((n / 10) as int).push(digit_char((n % 10) as int)) =~= decimal(
                (n / 10) as int,
            ) + seq![digit_char((n % 10) as int)]);
        }
        s
    }
}

/// Character-for-character equality of two string slices.
pub fn str_eq(a: &str, b: &str) -> (r: bool)
    ensures
        r == (a@ == b@),
{
    let alen = a.unicode_len();
    let blen = b.unicode_len();
    if alen != blen {
        assert(a@ != b@);
        return false;
    }
    let mut i: usize = 0;
    while i < alen
        invariant
            i <= alen,
            alen == a@.len(),
            alen == b@.len(),
            forall|j: int| 0 <= j < i ==> a@[j] == b@[j],
        decreases alen - i,
    {
        if a.get_char(i) != b.get_char(i) {
            assert(a@ != b@);
            return false;
        }
        i = i + 1;
    }
    proof {
        assert(a@ =~= b@);
    }
    true
}


/// Relies on std's String::push: appends exactly one character.
#[verifier::external_body]
pub fn push_char(s: &mut String, c: char)
    ensures
        final(s)@ == old(s)@.push(c),
{
    s.push(c);
}

/// The Unicode `White_Space` characters, the set `str::split_whitespace`
/// splits on.
pub open spec fn is_wspace(c: char) -> bool {
    ||| c == ' '
    ||| c == '\t'
    ||| c == '\n'
    ||| c == '\u{b}'
    ||| c == '\u{c}'
    ||| c == '\r'
    ||| c == '\u{85}'
    ||| c == '\u{a0}'
    ||| c == '\u{1680}'
    ||| ('\u{2000}' <= c && c <= '\u{200a}')
    ||| c == '\u{2028}'
    ||| c == '\u{2029}'
    ||| c == '\u{202f}'
    ||| c == '\u{205f}'
    ||| c == '\u{3000}'
}

/// Runtime test for `is_wspace`.
pub fn is_whitespace_char(c: char) -> (r: bool)
    ensures
        r == is_wspace(c),
{
    c == ' ' || c == '\t' || c == '\n' || c == '\u{b}' || c == '\u{c}' || c == '\r'
        || c == '\u{85}' || c == '\u{a0}' || c == '\u{1680}' || ('\u{2000}' <= c && c
        <= '\u{200a}') || c == '\u{2028}' || c == '\u{2029}' || c == '\u{202f}' || c
        == '\u{205f}' || c == '\u{3000}'
}

/// The whitespace-separated words of `rest`, accumulated onto `acc` with
/// `cur` the word in progress.
pub open spec fn words_acc(rest: Seq<char>, cur: Seq<char>, acc: Seq<Seq<char>>) -> Seq<Seq<char>>
    decreases rest.len(),
{
    if rest.len() == 0 {
        if cur.len() > 0 {
            acc.push(cur)
        } else {
            acc
        }
    } else if is_wspace(rest.first()) {
        words_acc(
            rest.drop_first(),
            Seq::empty(),
            if cur.len() > 0 {
                acc.push(cur)
            } else {
                acc
            },
        )
    } else {
        words_acc(rest.drop_first(), cur.push(rest.first()), acc)
    }
}

/// The whitespace-separated words of `s`, in order.
pub open spec fn words_of(s: Seq<char>) -> Seq<Seq<char>> {
    words_acc(s, Seq::empty(), Seq::empty())
}

/// Split `s` into its whitespace-separated words.
pub fn split_words(s: &str) -> (r: Vec<String>)
    ensures
        r@.map_values(|w: String| w@) == words_of(s@),
{
    let len = s.unicode_len();
    let mut acc: Vec<String> = Vec::new();
    let mut cur = String::new();
    let mut i: usize = 0;
    proof {
        assert(s@.skip(0) =~= s@);
        assert(acc@.map_values(|w: String| w@) =~= Seq::<Seq<char>>::empty());
    }
    while i < len
        invariant
            i <= len,
            len == s@.len(),
            words_acc(s@.skip(i as int), cur@, acc@.map_values(|w: String| w@)) == words_of(s@),
        decreases len - i,
    {
        let c = s.get_char(i);
        proof {
            assert(s@.skip(i as int).first() == s@[i as int]);
            assert(s@.skip(i as int).drop_first() =~= s@.skip(i + 1));
        }
        if is_whitespace_char(c) {
            if cur.unicode_len() > 0 {
                let ghost prev_words = acc@.map_values(|w: String| w@);
                let ghost finished = cur@;
                acc.push(cur);
                cur = String::new();
                proof {
                    assert(acc@.map_values(|w: String| w@) =~= prev_words.push(finished));
                    assert(cur@ =~= Seq::<char>::empty());
                }
            } else {
                proof {
                    assert(cur@ =~= Seq::<char>::empty());
                }
            }
        } else {
            push_char(&mut cur, c);
        }
        i = i + 1;
    }
    proof {
        assert(s@.skip(len as int) =~= Seq::<char>::empty());
    }
    if cur.unicode_len() > 0 {
        let ghost prev_words = acc@.map_values(|w: String| w@);
        let ghost finished = cur@;
        acc.push(cur);
        proof {
            assert(acc@.map_values(|w: String| w@) =~= prev_words.push(finished));
        }
    } else {
        proof {
            assert(cur@ =~= Seq::<char>::empty());
        }
    }
    acc
}

/// Tail of a space-join: a leading space before each remaining word.
pub open spec fn join_rest(ws: Seq<Seq<char>>) -> Seq<char>
    decreases ws.len(),
{
    if ws.len() == 0 {
        Seq::empty()
    } else {
        seq![' '] + ws.first() + join_rest(ws.drop_first())
    }
}

/// `ws` joined with single spaces.
pub open spec fn joined_with_spaces(ws: Seq<Seq<char>>) -> Seq<char> {
    if ws.len() == 0 {
        Seq::empty()
    } else {
        ws.first() + join_rest(ws.drop_first())
    }
}

/// Join `ws` with single spaces.
pub fn join_with_spaces(ws: &Vec<String>) -> (r: String)
    ensures
        r@ == joined_with_spaces(ws@.map_values(|w: String| w@)),
{
    let ghost gws = ws@.map_values(|w: String| w@);
    if ws.len() == 0 {
        return String::new();
    }
    let mut out = ws[0].clone();
    let mut i: usize = 1;
    proof {
        assert(gws.drop_first() =~= gws.skip(1));
    }
    while i < ws.len()
        invariant
            1 <= i <= ws@.len(),
            gws == ws@.map_values(|w: String| w@),
            gws.len() == ws@.len(),
            out@ + join_rest(gws.skip(i as int)) == joined_with_spaces(gws),
        decreases ws@.len() - i,
    {
        proof {
            reveal_strlit(" ");
            assert(gws.skip(i as int).first() == gws[i as int]);
            assert(gws.skip(i as int).drop_first() =~= gws.skip(i + 1));
        }
        out.append(" ");
        out.append(ws[i].as_str());
        proof {
            assert(out@ + join_rest(gws.skip(i + 1)) =~= joined_with_spaces(gws));
        }
        i = i + 1;
    }
    proof {
        assert(join_rest(gws.skip(gws.len() as int)) =~= Seq::<char>::empty());
        assert(out@ =~= out@ + Seq::<char>::empty());
    }
    out
}


/// HTML escape of a single character, as used inside code blocks.
pub open spec fn esc_html(c: char) -> Seq<char> {
    if c == '&' {
        "&amp;"@
    } else if c == '<' {
        "&lt;"@
    } else if c == '>' {
        "&gt;"@
    } else if c == '"' {
        "&quot;"@
    } else {
        seq![c]
    }
}

/// `s` with `&`, `<`, `>` and `"` replaced by their HTML entities.
pub open spec fn html_escaped(s: Seq<char>) -> Seq<char>
    decreases s.len(),
{
    if s.len() == 0 {
        Seq::empty()
    } else {
        esc_html(s.first()) + html_escaped(s.drop_first())
    }
}

/// XML escape of a single character; like the HTML escape but also maps `'`.
pub open spec fn esc_xml(c: char) -> Seq<char> {
    if c == '&' {
        "&amp;"@
    } else if c == '<' {
        "&lt;"@
    } else if c == '>' {
        "&gt;"@
    } else if c == '"' {
        "&quot;"@
    } else if c == '\'' {
        "&apos;"@
    } else {
        seq![c]
    }
}

/// `s` with the five XML metacharacters replaced by their entities.
pub open spec fn xml_escaped(s: Seq<char>) -> Seq<char>
    decreases s.len(),
{
    if s.len() == 0 {
        Seq::empty()
    } else {
        esc_xml(s.first()) + xml_escaped(s.drop_first())
    }
}

/// Escape `&`, `<`, `>` and `"` for embedding in HTML.
pub fn html_escape(s: &str) -> (r: String)
    ensures
        r@ == html_escaped(s@),
{
    let len = s.unicode_len();
    let mut out = String::new();
    let mut i: usize = 0;
    proof {
        assert(s@.skip(0) =~= s@);
    }
    while i < len
        invariant
            i <= len,
            len == s@.len(),
            out@ + html_escaped(s@.skip(i as int)) == html_escaped(s@),
        decreases len - i,
    {
        let c = s.get_char(i);
        proof {
            assert(s@.skip(i as int).first() == s@[i as int]);
            assert(s@.skip(i as int).drop_first() =~= s@.skip(i + 1));
        }
        if c == '&' {
            out.append("&amp;");
        } else if c == '<' {
            out.append("&lt;");
        } else if c == '>' {
            out.append("&gt;");
        } else if c == '"' {
            out.append("&quot;");
        } else {
            push_char(&mut out, c);
            proof {
                assert(out@ =~= out@.drop_last() + seq![c]);
            }
        }
        proof {
            assert(out@ + html_escaped(s@.skip(i + 1)) =~= html_escaped(s@));
        }
        i = i + 1;
    }
    proof {
        assert(s@.skip(len as int) =~= Seq::<char>::empty());
        assert(out@ =~= out@ + Seq::<char>::empty());
    }
    out
}

/// Escape the five XML metacharacters for embedding in XML text.
pub fn xml_escape(s: &str) -> (r: String)
    ensures
        r@ == xml_escaped(s@),
{
    let len = s.unicode_len();
    let mut out = String::new();
    let mut i: usize = 0;
    proof {
        assert(s@.skip(0) =~= s@);
    }
    while i < len
        invariant
            i <= len,
            len == s@.len(),
            out@ + xml_escaped(s@.skip(i as int)) == xml_escaped(s@),
        decreases len - i,
    {
        let c = s.get_char(i);
        proof {
            assert(s@.skip(i as int).first() == s@[i as int]);
            assert(s@.skip(i as int).drop_first() =~= s@.skip(i + 1));
        }
        if c == '&' {
            out.append("&amp;");
        } else if c == '<' {
            out.append("&lt;");
        } else if c == '>' {
            out.append("&gt;");
        } else if c == '"' {
            out.append("&quot;");
        } else if c == '\'' {
            out.append("&apos;");
        } else {
            push_char(&mut out, c);
            proof {
                assert(out@ =~= out@.drop_last() + seq![c]);
            }
        }
        proof {
            assert(out@ + xml_escaped(s@.skip(i + 1)) =~= xml_escaped(s@));
        }
        i = i + 1;
    }
    proof {
        assert(s@.skip(len as int) =~= Seq::<char>::empty());
        assert(out@ =~= out@ + Seq::<char>::empty());
    }
    out
}

/// The text of `s` outside angle-bracket tags: `<` enters a tag, `>` leaves
/// it, and only characters seen outside a tag are kept.
pub open spec fn tags_stripped(s: Seq<char>, in_tag: bool) -> Seq<char>
    decreases s.len(),
{
    if s.len() == 0 {
        Seq::empty()
    } else if s.first() == '<' {
        tags_stripped(s.drop_first(), true)
    } else if s.first() == '>' {
        tags_stripped(s.drop_first(), false)
    } else if !in_tag {
        seq![s.first()] + tags_stripped(s.drop_first(), in_tag)
    } else {
        tags_stripped(s.drop_first(), in_tag)
    }
}

/// Remove HTML tags, keeping only the text between them.
pub fn strip_html(html: &str) -> (r: String)
    ensures
        r@ == tags_stripped(html@, false),
{
    let len = html.unicode_len();
    let mut out = String::new();
    let mut in_tag = false;
    let mut i: usize = 0;
    proof {
        assert(html@.skip(0) =~= html@);
    }
    while i < len
        invariant
            i <= len,
            len == html@.len(),
            out@ + tags_stripped(html@.skip(i as int), in_tag) == tags_stripped(html@, false),
        decreases len - i,
    {
        let c = html.get_char(i);
        proof {
            assert(html@.skip(i as int).first() == html@[i as int]);
            assert(html@.skip(i as int).drop_first() =~= html@.skip(i + 1));
        }
        if c == '<' {
            in_tag = true;
        } else if c == '>' {
            in_tag = false;
        } else if !in_tag {
            push_char(&mut out, c);
            proof {
                assert(out@ =~= out@.drop_last() + seq![c]);
            }
        }
        i = i + 1;
    }
    proof {
        assert(html@.skip(len as int) =~= Seq::<char>::empty());
        assert(out@ =~= out@ + Seq::<char>::empty());
    }
    out
}

/// `s` truncated to its first `count` words: unchanged when it has no more
/// than `count` words, otherwise those words joined by single spaces with an
/// ellipsis appended.
pub open spec fn truncated_words(s: Seq<char>, count: int) -> Seq<char> {
    if words_of(s).len() <= count {
        s
    } else {
        joined_with_spaces(words_of(s).take(count)) + "..."@
    }
}

/// Truncate `text` to its first `count` words.
pub fn truncate_words(text: &str, count: usize) -> (r: String)
    ensures
        r@ == truncated_words(text@, count as int),
{
    let mut words = split_words(text);
    if words.len() <= count {
        text.to_owned()
    } else {
        words.truncate(count);
        proof {
            assert(words@.map_values(|w: String| w@) =~= words_of(text@).take(count as int));
        }
        let mut out = join_with_spaces(&words);
        out.append("...");
        out
    }
}

/// Copy a list of strings; the copy's contents equal the original's.
pub fn clone_strings(v: &Vec<String>) -> (r: Vec<String>)
    ensures
        r@.map_values(|x: String| x@) == v@.map_values(|x: String| x@),
        r@.len() == v@.len(),
{
    let mut out: Vec<String> = Vec::new();
    let mut i: usize = 0;
    while i < v.len()
        invariant
            i <= v@.len(),
            out@.len() == i,
            forall|j: int| 0 <= j < i ==> out@[j] == v@[j],
        decreases v@.len() - i,
    {
        out.push(v[i].clone());
        i = i + 1;
    }
    proof {
        assert(out@.map_values(|x: String| x@) =~= v@.map_values(|x: String| x@));
    }
    out
}
} // verus!
