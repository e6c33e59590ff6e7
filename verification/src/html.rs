//! HTML escaping, dates for display, and the page templates.
use vstd::prelude::*;
use crate::external::push_char;
use crate::text::{
    ascii_lower, ascii_lower_char, ascii_lowercase, chars_of, contains, contains_chars, occurs_at,
    push_range, replace_char, replace_char_in,
};

verus! {

/// What one character becomes in escaped HTML text.
pub open spec fn escape_char(c: char) -> Seq<char> {
    if c == '&' {
        seq!['&', 'a', 'm', 'p', ';']
    } else if c == '<' {
        seq!['&', 'l', 't', ';']
    } else if c == '>' {
        seq!['&', 'g', 't', ';']
    } else if c == '"' {
        seq!['&', 'q', 'u', 'o', 't', ';']
    } else if c == '\'' {
        seq!['&', '#', '3', '9', ';']
    } else {
        seq![c]
    }
}

/// A text escaped for HTML: `&`, `<`, `>`, `"` and `'` become entities.
pub open spec fn escape(s: Seq<char>) -> Seq<char>
    decreases s.len(),
{
    if s.len() == 0 {
        Seq::empty()
    } else {
        escape_char(s[0]) + escape(s.drop_first())
    }
}

/// Escaping distributes over concatenation.
pub proof fn lemma_escape_append(a: Seq<char>, b: Seq<char>)
    ensures
        escape(a + b) == escape(a) + escape(b),
    decreases a.len(),
{
    if a.len() == 0 {
        assert(a + b == b);
    } else {
        assert((a + b).drop_first() == a.drop_first() + b);
        lemma_escape_append(a.drop_first(), b);
    }
}

proof fn lemma_escape_single(c: char)
    ensures
        escape(seq![c]) == escape_char(c),
{
    assert(seq![c].drop_first() == Seq::<char>::empty());
    assert(escape(Seq::<char>::empty()) == Seq::<char>::empty());
    assert(escape_char(c) + Seq::<char>::empty() == escape_char(c));
}

/// Escapes `&`, `<`, `>`, `"` and `'` for use in HTML text and attributes.
pub fn escape_html(input: &str) -> (r: String)
    ensures
        r@ == escape(input@),
{
    let cs = chars_of(input);
    let mut r = String::new();
    let mut i: usize = 0;
    while i < cs.len()
        invariant
            i <= cs@.len(),
            cs@ == input@,
            r@ == escape(cs@.take(i as int)),
        decreases cs@.len() - i,
    {
        let c = cs[i];
        proof {
            assert(cs@.take(i + 1) == cs@.take(i as int) + seq![c]);
            lemma_escape_append(cs@.take(i as int), seq![c]);
            lemma_escape_single(c);
        }
        if c == '&' {
            r.append("&amp;");
            proof {
                reveal_strlit("&amp;");
                assert("&amp;"@ =~= escape_char(c));
            }
        } else if c == '<' {
            r.append("&lt;");
            proof {
                reveal_strlit("&lt;");
                assert("&lt;"@ =~= escape_char(c));
            }
        } else if c == '>' {
            r.append("&gt;");
            proof {
                reveal_strlit("&gt;");
                assert("&gt;"@ =~= escape_char(c));
            }
        } else if c == '"' {
            r.append("&quot;");
            proof {
                reveal_strlit("&quot;");
                assert("&quot;"@ =~= escape_char(c));
            }
        } else if c == '\'' {
            r.append("&#39;");
            proof {
                reveal_strlit("&#39;");
                assert("&#39;"@ =~= escape_char(c));
            }
        } else {
            push_char(&mut r, c);
        }
        i = i + 1;
    }
    assert(cs@.take(cs@.len() as int) == cs@);
    r
}

/// The characters that escaped text never holds as they are.
pub open spec fn is_markup_char(c: char) -> bool {
    c == '<' || c == '>' || c == '"' || c == '\''
}

/// Escaped text holds no `<`, `>`, `"` or `'`.
pub proof fn lemma_escape_has_no_markup(s: Seq<char>)
    ensures
        forall|i: int| 0 <= i < escape(s).len() ==> !is_markup_char(#[trigger] escape(s)[i]),
    decreases s.len(),
{
    if s.len() > 0 {
        lemma_escape_has_no_markup(s.drop_first());
        let e = escape_char(s[0]);
        let t = escape(s.drop_first());
        assert forall|i: int| 0 <= i < escape(s).len() implies !is_markup_char(
            #[trigger] escape(s)[i],
        ) by {
            if i < e.len() {
                assert(escape(s)[i] == e[i]);
            } else {
                assert(escape(s)[i] == t[i - e.len()]);
            }
        }
    }
}

/// Reads escaped text back: each entity that `escape` writes becomes its
/// character again.
pub open spec fn unescape(t: Seq<char>) -> Seq<char>
    decreases t.len(),
{
    if t.len() == 0 {
        Seq::empty()
    } else if t.len() >= 5 && t.take(5) == seq!['&', 'a', 'm', 'p', ';'] {
        seq!['&'] + unescape(t.skip(5))
    } else if t.len() >= 4 && t.take(4) == seq!['&', 'l', 't', ';'] {
        seq!['<'] + unescape(t.skip(4))
    } else if t.len() >= 4 && t.take(4) == seq!['&', 'g', 't', ';'] {
        seq!['>'] + unescape(t.skip(4))
    } else if t.len() >= 6 && t.take(6) == seq!['&', 'q', 'u', 'o', 't', ';'] {
        seq!['"'] + unescape(t.skip(6))
    } else if t.len() >= 5 && t.take(5) == seq!['&', '#', '3', '9', ';'] {
        seq!['\''] + unescape(t.skip(5))
    } else {
        seq![t[0]] + unescape(t.drop_first())
    }
}

/// Escaping loses nothing: reading the escaped text back gives the text.
pub proof fn lemma_unescape_escape(s: Seq<char>)
    ensures
        unescape(escape(s)) == s,
    decreases s.len(),
{
    if s.len() > 0 {
        let c = s[0];
        let e = escape_char(c);
        let rest = escape(s.drop_first());
        let t = escape(s);
        assert(t == e + rest);
        lemma_unescape_escape(s.drop_first());
        assert(t.skip(e.len() as int) == rest);
        assert(t.take(e.len() as int) == e);
        if c != '&' && c != '<' && c != '>' && c != '"' && c != '\'' {
            assert(t[0] == c);
            assert(t.drop_first() == rest);
            if t.len() >= 4 {
                assert(t.take(4)[0] == c);
            }
            if t.len() >= 5 {
                assert(t.take(5)[0] == c);
            }
            if t.len() >= 6 {
                assert(t.take(6)[0] == c);
            }
        } else {
            assert(t[1] == e[1]);
            assert(t[0] == '&');
            if t.len() >= 4 {
                assert(t.take(4)[1] == t[1]);
                assert(t.take(4)[2] == t[2]);
            }
            if t.len() >= 5 {
                assert(t.take(5)[1] == t[1]);
                assert(t.take(5)[2] == t[2]);
            }
            if t.len() >= 6 {
                assert(t.take(6)[1] == t[1]);
            }
        }
        assert(seq![c] + s.drop_first() == s);
    }
}

/// Escaping is injective: two texts that escape alike are the same text.
pub proof fn lemma_escape_injective(a: Seq<char>, b: Seq<char>)
    requires
        escape(a) == escape(b),
    ensures
        a == b,
{
    lemma_unescape_escape(a);
    lemma_unescape_escape(b);
}

/// The part of `s` before the first `c`, or all of `s` when it has no `c`.
pub open spec fn take_until(s: Seq<char>, c: char) -> Seq<char>
    decreases s.len(),
{
    if s.len() == 0 {
        Seq::empty()
    } else if s[0] == c {
        Seq::empty()
    } else {
        seq![s[0]] + take_until(s.drop_first(), c)
    }
}

proof fn lemma_take_until_at(s: Seq<char>, c: char, i: int)
    requires
        0 <= i <= s.len(),
        forall|j: int| 0 <= j < i ==> #[trigger] s[j] != c,
        i == s.len() || s[i] == c,
    ensures
        take_until(s, c) == s.take(i),
    decreases i,
{
    if i > 0 {
        lemma_take_until_at(s.drop_first(), c, i - 1);
        assert(seq![s[0]] + s.drop_first().take(i - 1) == s.take(i));
    }
}

/// How a date is shown: the date part of an ISO 8601 timestamp (what comes
/// before the first `T`) with `-` written as `/`.
pub open spec fn display_date(iso: Seq<char>) -> Seq<char> {
    replace_char(take_until(iso, 'T'), '-', '/')
}

/// The date part of an ISO 8601 timestamp, written with `/`:
/// `2024-05-01T10:00:00+09:00` is shown as `2024/05/01`.
pub fn to_display_date(iso_datetime: &str) -> (r: String)
    ensures
        r@ == display_date(iso_datetime@),
{
    let cs = chars_of(iso_datetime);
    let mut i: usize = 0;
    while i < cs.len() && cs[i] != 'T'
        invariant
            i <= cs@.len(),
            forall|j: int| 0 <= j < i ==> #[trigger] cs@[j] != 'T',
        decreases cs@.len() - i,
    {
        i = i + 1;
    }
    proof {
        lemma_take_until_at(cs@, 'T', i as int);
    }
    let mut date = String::new();
    push_range(&mut date, &cs, 0, i);
    assert(cs@.subrange(0, i as int) == cs@.take(i as int));
    replace_char_in(date.as_str(), '-', '/')
}

/// A displayed date holds no `-` and no `T`.
pub proof fn lemma_display_date_shape(iso: Seq<char>)
    ensures
        !display_date(iso).contains('-'),
        !display_date(iso).contains('T'),
{
    let p = take_until(iso, 'T');
    lemma_take_until_has_no(iso, 'T');
    let d = display_date(iso);
    assert forall|i: int| 0 <= i < d.len() implies d[i] != '-' && d[i] != 'T' by {
        assert(p[i] != 'T');
    }
}

proof fn lemma_take_until_has_no(s: Seq<char>, c: char)
    ensures
        forall|i: int| 0 <= i < take_until(s, c).len() ==> #[trigger] take_until(s, c)[i] != c,
    decreases s.len(),
{
    if s.len() > 0 && s[0] != c {
        lemma_take_until_has_no(s.drop_first(), c);
        let t = take_until(s.drop_first(), c);
        assert forall|i: int| 0 <= i < take_until(s, c).len() implies #[trigger] take_until(
            s,
            c,
        )[i] != c by {
            if i > 0 {
                assert(take_until(s, c)[i] == t[i - 1]);
            }
        }
    }
}

/// Whether a text is a full HTML document rather than a fragment: its ASCII
/// lowercase holds `<!doctype html` or `<html`.
pub open spec fn full_html_document(content: Seq<char>) -> bool {
    contains(ascii_lowercase(content), "<!doctype html"@) || contains(
        ascii_lowercase(content),
        "<html"@,
    )
}

/// Whether `content` is a full HTML document (it holds `<!doctype html` or
/// `<html`, in any ASCII case) rather than a fragment.
pub fn is_full_html_document(content: &str) -> (b: bool)
    ensures
        b == full_html_document(content@),
{
    let cs = chars_of(content);
    let mut lowered: Vec<char> = Vec::new();
    let mut i: usize = 0;
    while i < cs.len()
        invariant
            i <= cs@.len(),
            cs@ == content@,
            lowered@ == ascii_lowercase(cs@.take(i as int)),
        decreases cs@.len() - i,
    {
        lowered.push(ascii_lower_char(cs[i]));
        assert(ascii_lowercase(cs@.take(i + 1)) =~= ascii_lowercase(cs@.take(i as int)).push(
            ascii_lower(cs@[i as int]),
        ));
        i = i + 1;
    }
    assert(cs@.take(cs@.len() as int) == cs@);
    let doctype = chars_of("<!doctype html");
    let html = chars_of("<html");
    contains_chars(&lowered, &doctype) || contains_chars(&lowered, &html)
}

/// A text is a full HTML document exactly when somewhere in it stands a piece
/// that reads `<html` or `<!doctype html` once ASCII letters are lowercased:
/// at the start, after a comment or a byte order mark, or anywhere else.
pub proof fn lemma_full_html_anywhere(a: Seq<char>, p: Seq<char>, b: Seq<char>)
    requires
        ascii_lowercase(p) == "<html"@ || ascii_lowercase(p) == "<!doctype html"@,
    ensures
        full_html_document(a + p + b),
{
    let c = a + p + b;
    let l = ascii_lowercase(c);
    assert(l.subrange(a.len() as int, (a.len() + p.len()) as int) =~= ascii_lowercase(p)) by {
        assert forall|k: int| 0 <= k < p.len() implies l.subrange(
            a.len() as int,
            (a.len() + p.len()) as int,
        )[k] == ascii_lowercase(p)[k] by {
            assert(c[a.len() + k] == p[k]);
        }
    }
    assert(occurs_at(l, ascii_lowercase(p), a.len() as int));
}

/// Conversely, a full HTML document holds such a piece somewhere.
pub proof fn lemma_full_html_has_marker(c: Seq<char>)
    requires
        full_html_document(c),
    ensures
        exists|i: int, j: int|
            0 <= i <= j <= c.len() && (ascii_lowercase(#[trigger] c.subrange(i, j)) == "<html"@
                || ascii_lowercase(c.subrange(i, j)) == "<!doctype html"@),
{
    let l = ascii_lowercase(c);
    let pat = if contains(l, "<!doctype html"@) {
        "<!doctype html"@
    } else {
        "<html"@
    };
    let i = choose|i: int| occurs_at(l, pat, i);
    let j = i + pat.len();
    assert(ascii_lowercase(c.subrange(i, j)) =~= l.subrange(i, j));
}

/// The opening of every page, up to the title.
pub open spec fn document_head() -> Seq<char> {
    "<!doctype html><html lang=\"ja\"><head><meta charset=\"utf-8\"><meta name=\"viewport\" content=\"width=device-width, initial-scale=1\"><title>"@
}

/// What stands between a page's title and its content.
pub open spec fn document_middle() -> Seq<char> {
    "</title><link rel=\"stylesheet\" href=\"/base.css\"></head><body><header class=\"site-header\"><a class=\"site-brand\" href=\"/\">Blog</a><nav class=\"site-nav\"><a class=\"site-nav-link\" href=\"/\">Home</a><a class=\"site-nav-link\" href=\"/archive/\">Archive</a></nav></header><div class=\"content-container\">"@
}

/// The end of every page, after its content.
pub open spec fn document_tail() -> Seq<char> {
    "</div><footer class=\"site-footer\"><small>&copy; Blog</small></footer></body></html>"@
}

/// A full page: the shared head and header, the escaped title, the content as
/// it stands, and the shared footer.
pub open spec fn document(title: Seq<char>, body: Seq<char>) -> Seq<char> {
    document_head() + escape(title) + document_middle() + body + document_tail()
}

/// Wraps content into a full page with the shared head, header and footer; the
/// title is escaped, the content is taken as it stands.
pub fn render_document_html(title: &str, body_content: &str) -> (r: String)
    ensures
        r@ == document(title@, body_content@),
{
    let escaped_title = escape_html(title);
    let mut r = String::new();
    r.append(
        "<!doctype html><html lang=\"ja\"><head><meta charset=\"utf-8\"><meta name=\"viewport\" content=\"width=device-width, initial-scale=1\"><title>",
    );
    r.append(escaped_title.as_str());
    r.append(
        "</title><link rel=\"stylesheet\" href=\"/base.css\"></head><body><header class=\"site-header\"><a class=\"site-brand\" href=\"/\">Blog</a><nav class=\"site-nav\"><a class=\"site-nav-link\" href=\"/\">Home</a><a class=\"site-nav-link\" href=\"/archive/\">Archive</a></nav></header><div class=\"content-container\">",
    );
    r.append(body_content);
    r.append(
        "</div><footer class=\"site-footer\"><small>&copy; Blog</small></footer></body></html>",
    );
    r
}

} // verus!
