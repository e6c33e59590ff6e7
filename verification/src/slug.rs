//! Slugs: the URL-safe names of sections and articles, and the registry that
//! keeps every article URL of a build distinct.
use vstd::prelude::*;
use vstd::utf8::encode_utf8;
use crate::external::{
    nfkc, nfkc_normalize, push_char, sha1, sha1_digest, to_lowercase, unicode_lowercase,
};
use crate::text::{chars_of, is_white_space, is_whitespace_char, join, join_strings, lemma_join_push, views};

verus! {

/// The characters that a slug keeps as they are.
pub open spec fn is_slug_char(c: char) -> bool {
    ('a' <= c && c <= 'z') || ('0' <= c && c <= '9')
}

/// One pass over the normalized text: ASCII lowercase letters and digits are
/// kept, each run of white space and `-` becomes one `-`, everything else is
/// dropped. The flag tells whether the last thing written was a `-`.
pub open spec fn slug_scan(s: Seq<char>) -> (Seq<char>, bool)
    decreases s.len(),
{
    if s.len() == 0 {
        (Seq::empty(), false)
    } else {
        let prev = slug_scan(s.drop_last());
        let c = s.last();
        if is_slug_char(c) {
            (prev.0.push(c), false)
        } else if is_white_space(c) || c == '-' {
            if prev.1 {
                prev
            } else {
                (prev.0.push('-'), true)
            }
        } else {
            prev
        }
    }
}

/// `s` without its leading `-`.
pub open spec fn trim_dash_start(s: Seq<char>) -> Seq<char>
    decreases s.len(),
{
    if s.len() > 0 && s[0] == '-' {
        trim_dash_start(s.drop_first())
    } else {
        s
    }
}

/// `s` without its trailing `-`.
pub open spec fn trim_dash_end(s: Seq<char>) -> Seq<char>
    decreases s.len(),
{
    if s.len() > 0 && s.last() == '-' {
        trim_dash_end(s.drop_last())
    } else {
        s
    }
}

/// `s` without leading and trailing `-`, as `str::trim_matches('-')` gives it.
pub open spec fn trim_dashes(s: Seq<char>) -> Seq<char> {
    trim_dash_end(trim_dash_start(s))
}

/// The lowercase hexadecimal digit of a value below 16.
pub open spec fn hex_digit(d: int) -> char {
    if d < 10 {
        (48 + d) as char
    } else {
        (87 + d) as char
    }
}

/// A byte as two lowercase hexadecimal digits.
pub open spec fn hex_byte(b: u8) -> Seq<char> {
    seq![hex_digit((b / 16) as int), hex_digit((b % 16) as int)]
}

/// The first four bytes of the SHA-1 digest of the UTF-8 encoding of a text,
/// in lowercase hexadecimal.
pub open spec fn short_hash(input: Seq<char>) -> Seq<char> {
    let d = sha1(encode_utf8(input));
    hex_byte(d[0]) + hex_byte(d[1]) + hex_byte(d[2]) + hex_byte(d[3])
}

/// The slug of a text: NFKC-normalize and lowercase it, keep `a`-`z` and
/// `0`-`9`, turn each run of white space and `-` into one `-`, drop the
/// rest, trim `-` at both ends; when nothing is left, `p-` and a short hash of
/// the text.
pub open spec fn slug_of(input: Seq<char>) -> Seq<char> {
    let normalized = unicode_lowercase(nfkc(input));
    let t = trim_dashes(slug_scan(normalized).0);
    if t.len() == 0 {
        seq!['p', '-'] + short_hash(input)
    } else {
        t
    }
}

fn hex_digit_char(d: u8) -> (c: char)
    requires
        d < 16,
    ensures
        c == hex_digit(d as int),
{
    if d < 10 {
        (48u8 + d) as char
    } else {
        (87u8 + d) as char
    }
}

/// The first four bytes of the SHA-1 digest of the text, in lowercase hex.
pub fn short_hash_of(input: &str) -> (r: String)
    ensures
        r@ == short_hash(input@),
{
    let bytes = input.as_bytes();
    let digest = sha1_digest(bytes);
    let ghost d = digest@;
    let mut r = String::new();
    let mut k: usize = 0;
    while k < 4
        invariant
            k <= 4,
            digest@ == d,
            d.len() == 20,
            r@ == if k == 0 {
                Seq::<char>::empty()
            } else if k == 1 {
                hex_byte(d[0])
            } else if k == 2 {
                hex_byte(d[0]) + hex_byte(d[1])
            } else if k == 3 {
                hex_byte(d[0]) + hex_byte(d[1]) + hex_byte(d[2])
            } else {
                hex_byte(d[0]) + hex_byte(d[1]) + hex_byte(d[2]) + hex_byte(d[3])
            },
        decreases 4 - k,
    {
        let b = digest[k];
        let ghost before = r@;
        push_char(&mut r, hex_digit_char(b / 16));
        push_char(&mut r, hex_digit_char(b % 16));
        assert(r@ == before + hex_byte(b));
        k = k + 1;
    }
    assert(bytes@ == encode_utf8(input@));
    r
}

proof fn lemma_trim_dash_start_from(s: Seq<char>, i: int)
    requires
        0 <= i <= s.len(),
        forall|j: int| 0 <= j < i ==> #[trigger] s[j] == '-',
    ensures
        trim_dash_start(s) == trim_dash_start(s.subrange(i, s.len() as int)),
    decreases i,
{
    if i > 0 {
        assert(s.drop_first().subrange(i - 1, s.drop_first().len() as int) == s.subrange(
            i,
            s.len() as int,
        ));
        lemma_trim_dash_start_from(s.drop_first(), i - 1);
    } else {
        assert(s.subrange(0, s.len() as int) == s);
    }
}

proof fn lemma_trim_dash_end_to(s: Seq<char>, k: int)
    requires
        0 <= k <= s.len(),
        forall|j: int| k <= j < s.len() ==> #[trigger] s[j] == '-',
    ensures
        trim_dash_end(s) == trim_dash_end(s.subrange(0, k)),
    decreases s.len() - k,
{
    if k < s.len() {
        assert(s.drop_last().subrange(0, k) == s.subrange(0, k));
        lemma_trim_dash_end_to(s.drop_last(), k);
    } else {
        assert(s.subrange(0, k) == s);
    }
}

/// The characters `cs[i..k]`, where `i` and `k` cut off the leading and
/// trailing `-`.
fn trim_dash_chars(cs: &Vec<char>) -> (r: String)
    ensures
        r@ == trim_dashes(cs@),
{
    let n = cs.len();
    let mut i: usize = 0;
    while i < n && cs[i] == '-'
        invariant
            i <= n == cs@.len(),
            forall|j: int| 0 <= j < i ==> #[trigger] cs@[j] == '-',
        decreases n - i,
    {
        i = i + 1;
    }
    let mut k: usize = n;
    while k > i && cs[k - 1] == '-'
        invariant
            i <= k <= n == cs@.len(),
            forall|j: int| k <= j < n ==> #[trigger] cs@[j] == '-',
        decreases k,
    {
        k = k - 1;
    }
    proof {
        lemma_trim_dash_start_from(cs@, i as int);
        let rest = cs@.subrange(i as int, n as int);
        assert(i < n ==> rest[0] != '-');
        assert(trim_dash_start(rest) == rest);
        assert forall|j: int| k - i <= j < rest.len() implies #[trigger] rest[j] == '-' by {
            assert(rest[j] == cs@[i + j]);
        }
        lemma_trim_dash_end_to(rest, k - i);
        let mid = rest.subrange(0, k - i);
        assert(mid == cs@.subrange(i as int, k as int));
        if mid.len() > 0 {
            assert(mid.last() == cs@[k - 1]);
        }
        assert(trim_dash_end(mid) == mid);
    }
    let mut r = String::new();
    crate::text::push_range(&mut r, cs, i, k);
    r
}

/// Turns a text into a URL-safe slug: NFKC-normalized and lowercased, ASCII
/// letters and digits kept, runs of white space and `-` made one `-`, the rest
/// dropped, `-` trimmed at both ends; `p-` and a short hash of the text when
/// nothing is left.
pub fn slugify(input: &str) -> (slug: String)
    ensures
        slug@ == slug_of(input@),
{
    let normalized_text = nfkc_normalize(input);
    let normalized = to_lowercase(normalized_text.as_str());
    let cs = chars_of(normalized.as_str());
    let mut acc: Vec<char> = Vec::new();
    let mut previous_was_dash = false;
    let mut i: usize = 0;
    while i < cs.len()
        invariant
            i <= cs@.len(),
            cs@ == unicode_lowercase(nfkc(input@)),
            (acc@, previous_was_dash) == slug_scan(cs@.take(i as int)),
        decreases cs@.len() - i,
    {
        let c = cs[i];
        proof {
            assert(cs@.take(i + 1).drop_last() == cs@.take(i as int));
            assert(cs@.take(i + 1).last() == c);
        }
        if ('a' <= c && c <= 'z') || ('0' <= c && c <= '9') {
            acc.push(c);
            previous_was_dash = false;
        } else if is_whitespace_char(c) || c == '-' {
            if !previous_was_dash {
                acc.push('-');
                previous_was_dash = true;
            }
        }
        i = i + 1;
    }
    assert(cs@.take(cs@.len() as int) == cs@);
    let trimmed = trim_dash_chars(&acc);
    if trimmed.as_str().is_empty() {
        let hash = short_hash_of(input);
        let mut s = String::new();
        push_char(&mut s, 'p');
        push_char(&mut s, '-');
        s.append(hash.as_str());
        assert(s@ =~= seq!['p', '-'] + short_hash(input@));
        s
    } else {
        trimmed
    }
}

/// A URL-safe slug: not empty, only `a`-`z`, `0`-`9` and `-`, no `-` at
/// either end and never two `-` in a row.
pub open spec fn is_url_safe_slug(s: Seq<char>) -> bool {
    &&& s.len() > 0
    &&& forall|i: int| 0 <= i < s.len() ==> is_slug_char(#[trigger] s[i]) || s[i] == '-'
    &&& s[0] != '-'
    &&& s.last() != '-'
    &&& forall|i: int| 0 <= i < s.len() - 1 ==> !(#[trigger] s[i] == '-' && s[i + 1] == '-')
}

/// Only slug characters and `-`, never two `-` in a row.
pub open spec fn dash_separated(s: Seq<char>) -> bool {
    &&& forall|i: int| 0 <= i < s.len() ==> is_slug_char(#[trigger] s[i]) || s[i] == '-'
    &&& forall|i: int| 0 <= i < s.len() - 1 ==> !(#[trigger] s[i] == '-' && s[i + 1] == '-')
}

proof fn lemma_slug_scan_shape(s: Seq<char>)
    ensures
        dash_separated(slug_scan(s).0),
        slug_scan(s).1 ==> slug_scan(s).0.len() > 0 && slug_scan(s).0.last() == '-',
        !slug_scan(s).1 ==> slug_scan(s).0.len() == 0 || slug_scan(s).0.last() != '-',
    decreases s.len(),
{
    if s.len() > 0 {
        lemma_slug_scan_shape(s.drop_last());
        let prev = slug_scan(s.drop_last());
        let acc = prev.0;
        let c = s.last();
        if is_slug_char(c) {
            let t = acc.push(c);
            assert forall|i: int| 0 <= i < t.len() - 1 implies !(#[trigger] t[i] == '-' && t[i
                + 1] == '-') by {
                if i < acc.len() - 1 {
                    assert(t[i] == acc[i] && t[i + 1] == acc[i + 1]);
                }
            }
        } else if (is_white_space(c) || c == '-') && !prev.1 {
            let t = acc.push('-');
            assert forall|i: int| 0 <= i < t.len() - 1 implies !(#[trigger] t[i] == '-' && t[i
                + 1] == '-') by {
                if i < acc.len() - 1 {
                    assert(t[i] == acc[i] && t[i + 1] == acc[i + 1]);
                } else {
                    assert(t[i] == acc.last());
                }
            }
        }
    }
}

proof fn lemma_subrange_dash_separated(s: Seq<char>, a: int, b: int)
    requires
        dash_separated(s),
        0 <= a <= b <= s.len(),
    ensures
        dash_separated(s.subrange(a, b)),
{
    let t = s.subrange(a, b);
    assert forall|i: int| 0 <= i < t.len() - 1 implies !(#[trigger] t[i] == '-' && t[i + 1]
        == '-') by {
        assert(t[i] == s[a + i] && t[i + 1] == s[a + i + 1]);
    }
    assert forall|i: int| 0 <= i < t.len() implies is_slug_char(#[trigger] t[i]) || t[i]
        == '-' by {
        assert(t[i] == s[a + i]);
    }
}

proof fn lemma_trim_dash_start_shape(s: Seq<char>)
    ensures
        exists|a: int| 0 <= a <= s.len() && trim_dash_start(s) == #[trigger] s.subrange(
            a,
            s.len() as int,
        ),
        trim_dash_start(s).len() > 0 ==> trim_dash_start(s)[0] != '-',
    decreases s.len(),
{
    if s.len() > 0 && s[0] == '-' {
        lemma_trim_dash_start_shape(s.drop_first());
        let a = choose|a: int|
            0 <= a <= s.drop_first().len() && trim_dash_start(s.drop_first())
                == #[trigger] s.drop_first().subrange(a, s.drop_first().len() as int);
        assert(s.drop_first().subrange(a, s.drop_first().len() as int) == s.subrange(
            a + 1,
            s.len() as int,
        ));
    } else {
        assert(s.subrange(0, s.len() as int) == s);
    }
}

proof fn lemma_trim_dash_end_shape(s: Seq<char>)
    ensures
        exists|b: int| 0 <= b <= s.len() && trim_dash_end(s) == #[trigger] s.subrange(0, b),
        trim_dash_end(s).len() > 0 ==> trim_dash_end(s).last() != '-',
    decreases s.len(),
{
    if s.len() > 0 && s.last() == '-' {
        lemma_trim_dash_end_shape(s.drop_last());
        let b = choose|b: int|
            0 <= b <= s.drop_last().len() && trim_dash_end(s.drop_last())
                == #[trigger] s.drop_last().subrange(0, b);
        assert(s.drop_last().subrange(0, b) == s.subrange(0, b));
    } else {
        assert(s.subrange(0, s.len() as int) == s);
    }
}

/// Every slug is URL-safe: not empty, only `a`-`z`, `0`-`9` and `-`, no `-`
/// at either end, never two `-` in a row.
pub proof fn lemma_slug_is_url_safe(input: Seq<char>)
    ensures
        is_url_safe_slug(slug_of(input)),
{
    let normalized = unicode_lowercase(nfkc(input));
    let scanned = slug_scan(normalized).0;
    lemma_slug_scan_shape(normalized);
    let st = trim_dash_start(scanned);
    lemma_trim_dash_start_shape(scanned);
    let a = choose|a: int|
        0 <= a <= scanned.len() && st == #[trigger] scanned.subrange(a, scanned.len() as int);
    lemma_subrange_dash_separated(scanned, a, scanned.len() as int);
    let t = trim_dash_end(st);
    lemma_trim_dash_end_shape(st);
    let b = choose|b: int| 0 <= b <= st.len() && t == #[trigger] st.subrange(0, b);
    lemma_subrange_dash_separated(st, 0, b);
    if t.len() == 0 {
        let h = short_hash(input);
        let d = sha1(encode_utf8(input));
        let r = seq!['p', '-'] + h;
        assert forall|k: int| 0 <= k < 16 implies is_slug_char(#[trigger] hex_digit(k)) by {}
        assert(hex_byte(d[0])[0] == hex_digit((d[0] / 16) as int));
        assert forall|i: int| 2 <= i < r.len() implies is_slug_char(#[trigger] r[i]) by {
            let j = i - 2;
            assert(r[i] == h[j]);
            if j < 2 {
                assert(h[j] == hex_byte(d[0])[j]);
            } else if j < 4 {
                assert(h[j] == hex_byte(d[1])[j - 2]);
            } else if j < 6 {
                assert(h[j] == hex_byte(d[2])[j - 4]);
            } else {
                assert(h[j] == hex_byte(d[3])[j - 6]);
            }
            assert(0 <= d[0] / 16 < 16 && 0 <= d[0] % 16 < 16);
            assert(0 <= d[1] / 16 < 16 && 0 <= d[1] % 16 < 16);
            assert(0 <= d[2] / 16 < 16 && 0 <= d[2] % 16 < 16);
            assert(0 <= d[3] / 16 < 16 && 0 <= d[3] % 16 < 16);
        }
        assert(r.len() == 10);
        assert(is_slug_char(r[9]));
        assert(is_slug_char(r[2]));
    } else {
        assert(t[0] == st[0]);
    }
}

/// The decimal digits of a number, as `format!("{}")` writes it.
pub open spec fn decimal(n: nat) -> Seq<char>
    decreases n,
{
    if n < 10 {
        seq![(48 + n) as char]
    } else {
        decimal(n / 10).push((48 + n % 10) as char)
    }
}

/// Appends the decimal digits of `n`.
fn push_decimal(out: &mut String, n: usize)
    ensures
        final(out)@ == old(out)@ + decimal(n as nat),
    decreases n,
{
    if n >= 10 {
        push_decimal(out, n / 10);
    }
    let d = (n % 10) as u8;
    push_char(out, (48u8 + d) as char);
    proof {
        if n < 10 {
            assert(decimal(n as nat) == seq![(48 + n) as char]);
        }
    }
}

proof fn lemma_decimal_len(n: nat)
    ensures
        decimal(n).len() >= 1,
        decimal(n).len() == 1 <==> n < 10,
    decreases n,
{
    if n >= 10 {
        lemma_decimal_len(n / 10);
    }
}

/// Different numbers have different decimal digits.
proof fn lemma_decimal_injective(a: nat, b: nat)
    requires
        decimal(a) == decimal(b),
    ensures
        a == b,
    decreases a,
{
    lemma_decimal_len(a);
    lemma_decimal_len(b);
    if a >= 10 {
        assert(b >= 10);
        assert(decimal(a).drop_last() == decimal(a / 10));
        assert(decimal(b).drop_last() == decimal(b / 10));
        lemma_decimal_injective(a / 10, b / 10);
        assert(decimal(a).last() == (48 + a % 10) as char);
        assert(decimal(b).last() == (48 + b % 10) as char);
    } else {
        assert(b < 10);
        assert(decimal(a)[0] == (48 + a) as char);
        assert(decimal(b)[0] == (48 + b) as char);
    }
}

/// The `k`-th slug tried for an article: the requested slug itself, then
/// `slug-2`, `slug-3`, and so on.
pub open spec fn candidate(base: Seq<char>, k: nat) -> Seq<char> {
    if k <= 1 {
        base
    } else {
        base + seq!['-'] + decimal(k)
    }
}

/// The path of an article below the site root: its section slugs and its own
/// slug, joined with `/`.
pub open spec fn url_path(sections: Seq<Seq<char>>, slug: Seq<char>) -> Seq<char> {
    join(sections.push(slug), "/"@)
}

/// What stands in an article path before its slug.
pub open spec fn url_prefix(sections: Seq<Seq<char>>) -> Seq<char> {
    if sections.len() == 0 {
        Seq::empty()
    } else {
        join(sections, "/"@) + "/"@
    }
}

proof fn lemma_url_path_prefix(sections: Seq<Seq<char>>, slug: Seq<char>)
    ensures
        url_path(sections, slug) == url_prefix(sections) + slug,
{
    lemma_join_push(sections, slug, "/"@);
    if sections.len() == 0 {
        assert(Seq::<char>::empty() + slug == slug);
    }
}

/// Distinct tries give distinct paths.
proof fn lemma_candidate_path_injective(sections: Seq<Seq<char>>, base: Seq<char>, a: nat, b: nat)
    requires
        a >= 1,
        b >= 1,
        url_path(sections, candidate(base, a)) == url_path(sections, candidate(base, b)),
    ensures
        a == b,
{
    let p = url_prefix(sections);
    lemma_url_path_prefix(sections, candidate(base, a));
    lemma_url_path_prefix(sections, candidate(base, b));
    let ca = candidate(base, a);
    let cb = candidate(base, b);
    assert((p + ca).skip(p.len() as int) == ca);
    assert((p + cb).skip(p.len() as int) == cb);
    assert(ca == cb);
    lemma_decimal_len(a);
    lemma_decimal_len(b);
    if a >= 2 && b >= 2 {
        let k: int = (base.len() + 1) as int;
        assert(ca.skip(k) == decimal(a));
        assert(cb.skip(k) == decimal(b));
        lemma_decimal_injective(a, b);
    } else if a >= 2 {
        assert(ca.len() > base.len());
    } else if b >= 2 {
        assert(cb.len() > base.len());
    }
}

/// Tries `1..=m` all taken in a finite set: the set holds at least `m` paths.
proof fn lemma_taken_candidates_bound(
    used: Set<Seq<char>>,
    sections: Seq<Seq<char>>,
    base: Seq<char>,
    m: nat,
)
    requires
        used.finite(),
        forall|j: nat| 1 <= j <= m ==> used.contains(#[trigger] url_path(sections, candidate(base, j))),
    ensures
        m <= used.len(),
{
    let s = Seq::new(m, |i: int| url_path(sections, candidate(base, (i + 1) as nat)));
    assert forall|i: int, j: int| 0 <= i < s.len() && 0 <= j < s.len() && i != j implies s[i]
        != s[j] by {
        if s[i] == s[j] {
            lemma_candidate_path_injective(sections, base, (i + 1) as nat, (j + 1) as nat);
        }
    }
    assert(s.no_duplicates());
    s.unique_seq_to_set();
    assert forall|x: Seq<char>| s.to_set().contains(x) implies used.contains(x) by {
        let i = choose|i: int| 0 <= i < s.len() && s[i] == x;
        assert(used.contains(url_path(sections, candidate(base, (i + 1) as nat))));
    }
    vstd::set_lib::lemma_len_subset(s.to_set(), used);
}

proof fn lemma_decimal_digits(n: nat)
    ensures
        forall|i: int| 0 <= i < decimal(n).len() ==> '0' <= #[trigger] decimal(n)[i] <= '9',
    decreases n,
{
    if n >= 10 {
        lemma_decimal_digits(n / 10);
        let d = decimal(n);
        assert forall|i: int| 0 <= i < d.len() implies '0' <= #[trigger] d[i] <= '9' by {
            if i < d.len() - 1 {
                assert(d[i] == decimal(n / 10)[i]);
            }
        }
    }
}

/// Every slug tried for an article is URL-safe when the requested slug is:
/// `slug-2`, `slug-3`, ... only add `-` and decimal digits.
pub proof fn lemma_candidate_url_safe(base: Seq<char>, k: nat)
    requires
        is_url_safe_slug(base),
    ensures
        is_url_safe_slug(candidate(base, k)),
{
    if k >= 2 {
        let d = decimal(k);
        lemma_decimal_len(k);
        lemma_decimal_digits(k);
        let c = base + seq!['-'] + d;
        let b = base.len() as int;
        assert forall|i: int| 0 <= i < c.len() implies is_slug_char(#[trigger] c[i]) || c[i]
            == '-' by {
            if i < b {
                assert(c[i] == base[i]);
            } else if i > b {
                assert(c[i] == d[i - b - 1]);
            }
        }
        assert forall|i: int| 0 <= i < c.len() - 1 implies !(#[trigger] c[i] == '-' && c[i + 1]
            == '-') by {
            if i < b - 1 {
                assert(c[i] == base[i] && c[i + 1] == base[i + 1]);
            } else if i == b - 1 {
                assert(c[i] == base.last());
            } else if i == b {
                assert(c[i + 1] == d[0]);
            } else {
                assert(c[i] == d[i - b - 1]);
            }
        }
        assert(c[0] == base[0]);
        assert(c.last() == d.last());
    }
}

/// A path that the registry hands out is never handed out again: once
/// recorded, a path is in the registry, and every later pick is a path that
/// was not in it.
pub proof fn lemma_recorded_paths_differ(
    before: Set<Seq<char>>,
    first: Seq<char>,
    after: Set<Seq<char>>,
    second: Seq<char>,
)
    requires
        after == before.insert(first),
        !after.contains(second),
    ensures
        first != second,
{
    assert(after.contains(first));
}

/// The set of article paths used so far in a build.
pub struct UrlRegistry {
    urls: Vec<String>,
}

impl UrlRegistry {
    #[verifier::type_invariant]
    spec fn wf(self) -> bool {
        views(self.urls@).no_duplicates()
    }
}

impl View for UrlRegistry {
    type V = Set<Seq<char>>;

    closed spec fn view(&self) -> Set<Seq<char>> {
        views(self.urls@).to_set()
    }
}

/// The registry holds finitely many paths.
pub proof fn lemma_registry_finite(r: UrlRegistry)
    ensures
        r@.finite(),
{
    vstd::seq_lib::seq_to_set_is_finite(views(r.urls@));
}

impl UrlRegistry {
    /// An empty registry.
    pub fn new() -> (r: UrlRegistry)
        ensures
            r@ == Set::<Seq<char>>::empty(),
    {
        let r = UrlRegistry { urls: Vec::new() };
        assert(views(r.urls@).to_set() =~= Set::<Seq<char>>::empty());
        r
    }

    /// How many paths the registry holds.
    pub fn len(&self) -> (n: usize)
        ensures
            n == self@.len(),
    {
        proof {
            use_type_invariant(self);
            views(self.urls@).unique_seq_to_set();
        }
        self.urls.len()
    }

    /// Whether the registry holds `url`.
    pub fn contains(&self, url: &String) -> (b: bool)
        ensures
            b == self@.contains(url@),
    {
        let mut i: usize = 0;
        while i < self.urls.len()
            invariant
                i <= self.urls@.len(),
                forall|j: int| 0 <= j < i ==> #[trigger] self.urls@[j]@ != url@,
            decreases self.urls@.len() - i,
        {
            if self.urls[i] == *url {
                assert(views(self.urls@)[i as int] == url@);
                return true;
            }
            i = i + 1;
        }
        assert(!views(self.urls@).contains(url@)) by {
            if views(self.urls@).contains(url@) {
                let j = choose|j: int| 0 <= j < views(self.urls@).len() && views(self.urls@)[j] == url@;
                assert(self.urls@[j]@ == url@);
            }
        }
        false
    }

    /// Adds `url`; says whether it was new. A path already there stays once.
    pub fn insert(&mut self, url: String) -> (added: bool)
        ensures
            added == !old(self)@.contains(url@),
            final(self)@ == old(self)@.insert(url@),
    {
        if self.contains(&url) {
            assert(self@.insert(url@) =~= self@);
            false
        } else {
            let ghost old_views = views(self.urls@);
            let ghost u = url@;
            proof {
                use_type_invariant(&*self);
            }
            let mut urls: Vec<String> = Vec::new();
            std::mem::swap(&mut urls, &mut self.urls);
            assert(views(urls@) == old_views);
            urls.push(url);
            proof {
                assert(views(urls@) =~= old_views.push(u));
                assert(views(urls@).no_duplicates()) by {
                    assert forall|i: int, j: int|
                        0 <= i < views(urls@).len() && 0 <= j < views(urls@).len() && i
                            != j implies views(urls@)[i] != views(urls@)[j] by {
                        if i == old_views.len() as int {
                            assert(old_views.contains(old_views[j]));
                        } else if j == old_views.len() as int {
                            assert(old_views.contains(old_views[i]));
                        }
                    }
                }
            }
            self.urls = urls;
            proof {
                assert(views(self.urls@) =~= old_views.push(u));
                assert(views(self.urls@).to_set() =~= old_views.to_set().insert(u)) by {
                    assert forall|x: Seq<char>| #[trigger] old_views.push(u).contains(x) <==> (
                    old_views.contains(x) || x == u) by {
                        if old_views.push(u).contains(x) {
                            let j = choose|j: int| 0 <= j < old_views.push(u).len() && old_views.push(u)[j] == x;
                            if j < old_views.len() {
                                assert(old_views[j] == x);
                            }
                        }
                        if old_views.contains(x) {
                            let j = choose|j: int| 0 <= j < old_views.len() && old_views[j] == x;
                            assert(old_views.push(u)[j] == x);
                        }
                        if x == u {
                            assert(old_views.push(u)[old_views.len() as int] == u);
                        }
                    }
                }
            }
            true
        }
    }
}

/// `k` is the first try whose path is still free in `used`.
pub open spec fn first_free_try(
    used: Set<Seq<char>>,
    sections: Seq<Seq<char>>,
    base: Seq<char>,
    k: nat,
) -> bool {
    &&& k >= 1
    &&& !used.contains(url_path(sections, candidate(base, k)))
    &&& forall|j: nat| 1 <= j < k ==> used.contains(#[trigger] url_path(sections, candidate(base, j)))
}

/// Picks the article's slug: the requested slug, or `slug-2`, `slug-3`, ...
/// whichever comes first whose path (the section slugs and the slug, joined
/// with `/`) is not used yet, and records that path as used.
pub fn ensure_unique_article_slug(
    base_slug: &str,
    section_slugs: &Vec<String>,
    used_urls: &mut UrlRegistry,
) -> (slug: String)
    requires
        old(used_urls)@.len() < usize::MAX,
    ensures
        exists|k: nat|
            first_free_try(old(used_urls)@, views(section_slugs@), base_slug@, k) && slug@
                == #[trigger] candidate(base_slug@, k),
        !old(used_urls)@.contains(url_path(views(section_slugs@), slug@)),
        final(used_urls)@ == old(used_urls)@.insert(url_path(views(section_slugs@), slug@)),
{
    let ghost sections = views(section_slugs@);
    let ghost used0 = used_urls@;
    proof {
        lemma_registry_finite(*used_urls);
    }
    let prefix = join_strings(section_slugs, "/");
    let mut sequence: usize = 1;
    loop
        invariant
            1 <= sequence <= used0.len() + 1,
            used0.len() < usize::MAX,
            used0.finite(),
            used_urls@ == used0,
            used0 == old(used_urls)@,
            sections == views(section_slugs@),
            prefix@ == join(sections, "/"@),
            forall|j: nat| 1 <= j < sequence ==> used0.contains(#[trigger] url_path(sections, candidate(base_slug@, j))),
        decreases used0.len() + 1 - sequence,
    {
        let mut candidate_slug = String::from_str(base_slug);
        if sequence > 1 {
            candidate_slug.append("-");
            push_decimal(&mut candidate_slug, sequence);
            proof {
                reveal_strlit("-");
                assert(candidate_slug@ =~= candidate(base_slug@, sequence as nat));
            }
        }
        assert(candidate_slug@ == candidate(base_slug@, sequence as nat));
        let mut full_url = String::new();
        if section_slugs.len() > 0 {
            full_url.append(prefix.as_str());
            full_url.append("/");
        }
        full_url.append(candidate_slug.as_str());
        proof {
            lemma_url_path_prefix(sections, candidate_slug@);
            assert(full_url@ =~= url_prefix(sections) + candidate_slug@);
        }
        if used_urls.insert(full_url) {
            assert(first_free_try(used0, sections, base_slug@, sequence as nat));
            return candidate_slug;
        }
        proof {
            lemma_taken_candidates_bound(used0, sections, base_slug@, sequence as nat);
        }
        sequence = sequence + 1;
    }
}

} // verus!
