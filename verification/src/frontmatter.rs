//! Splitting a Markdown source into its YAML frontmatter and its body.
use vstd::prelude::*;
use crate::text::{chars_of, join, join_range, push_range, string_of, views};

verus! {

/// The fields of an article's frontmatter; every one of them may be missing.
pub struct Frontmatter {
    pub title: Option<String>,
    pub tags: Option<Vec<String>>,
    pub draft: Option<bool>,
    pub slug: Option<String>,
    pub summary: Option<String>,
}

impl Default for Frontmatter {
    fn default() -> (f: Frontmatter)
        ensures
            f.title is None,
            f.tags is None,
            f.draft is None,
            f.slug is None,
            f.summary is None,
    {
        Frontmatter { title: None, tags: None, draft: None, slug: None, summary: None }
    }
}

/// A line without the `\r` of a `\r\n` ending.
pub open spec fn strip_cr(line: Seq<char>) -> Seq<char> {
    if line.len() > 0 && line.last() == '\r' {
        line.drop_last()
    } else {
        line
    }
}

/// One pass over a text: the lines ended by `\n` so far, and the line begun
/// since the last `\n`.
pub open spec fn lines_scan(s: Seq<char>) -> (Seq<Seq<char>>, Seq<char>)
    decreases s.len(),
{
    if s.len() == 0 {
        (Seq::empty(), Seq::empty())
    } else {
        let prev = lines_scan(s.drop_last());
        if s.last() == '\n' {
            (prev.0.push(strip_cr(prev.1)), Seq::empty())
        } else {
            (prev.0, prev.1.push(s.last()))
        }
    }
}

/// The lines of a text, as `str::lines` gives them: split at `\n`, a `\r`
/// before the `\n` dropped, no empty last line after a final `\n`.
pub open spec fn lines(s: Seq<char>) -> Seq<Seq<char>> {
    let p = lines_scan(s);
    if p.1.len() == 0 {
        p.0
    } else {
        p.0.push(p.1)
    }
}

/// The lines of a text, as `str::lines` gives them.
pub fn lines_of(s: &str) -> (r: Vec<String>)
    ensures
        views(r@) == lines(s@),
{
    let cs = chars_of(s);
    let mut done: Vec<String> = Vec::new();
    let mut cur: Vec<char> = Vec::new();
    let mut i: usize = 0;
    while i < cs.len()
        invariant
            i <= cs@.len(),
            cs@ == s@,
            (views(done@), cur@) == lines_scan(cs@.take(i as int)),
        decreases cs@.len() - i,
    {
        let c = cs[i];
        proof {
            assert(cs@.take(i + 1).drop_last() == cs@.take(i as int));
            assert(cs@.take(i + 1).last() == c);
        }
        if c == '\n' {
            let line = if cur.len() > 0 && cur[cur.len() - 1] == '\r' {
                let mut l = String::new();
                push_range(&mut l, &cur, 0, cur.len() - 1);
                assert(cur@.subrange(0, cur@.len() - 1) == cur@.drop_last());
                l
            } else {
                string_of(&cur)
            };
            let ghost before = views(done@);
            done.push(line);
            assert(views(done@) =~= before.push(strip_cr(cur@)));
            cur = Vec::new();
        } else {
            cur.push(c);
        }
        i = i + 1;
    }
    assert(cs@.take(cs@.len() as int) == cs@);
    if cur.len() > 0 {
        let ghost before = views(done@);
        done.push(string_of(&cur));
        assert(views(done@) =~= before.push(cur@));
    }
    done
}

/// A line without all of its trailing `\r`.
pub open spec fn trim_end_cr(line: Seq<char>) -> Seq<char>
    decreases line.len(),
{
    if line.len() > 0 && line.last() == '\r' {
        trim_end_cr(line.drop_last())
    } else {
        line
    }
}

/// A line that delimits the frontmatter: `---`, perhaps followed by `\r`.
pub open spec fn is_delimiter(line: Seq<char>) -> bool {
    trim_end_cr(line) == seq!['-', '-', '-']
}

proof fn lemma_trim_end_cr_to(s: Seq<char>, k: int)
    requires
        0 <= k <= s.len(),
        forall|j: int| k <= j < s.len() ==> #[trigger] s[j] == '\r',
    ensures
        trim_end_cr(s) == trim_end_cr(s.subrange(0, k)),
    decreases s.len() - k,
{
    if k < s.len() {
        assert(s.drop_last().subrange(0, k) == s.subrange(0, k));
        lemma_trim_end_cr_to(s.drop_last(), k);
    } else {
        assert(s.subrange(0, k) == s);
    }
}

/// Whether a line is a frontmatter delimiter.
pub fn is_delimiter_line(line: &String) -> (b: bool)
    ensures
        b == is_delimiter(line@),
{
    let cs = chars_of(line.as_str());
    let mut k: usize = cs.len();
    while k > 0 && cs[k - 1] == '\r'
        invariant
            k <= cs@.len(),
            forall|j: int| k <= j < cs@.len() ==> #[trigger] cs@[j] == '\r',
        decreases k,
    {
        k = k - 1;
    }
    proof {
        lemma_trim_end_cr_to(cs@, k as int);
        let t = cs@.subrange(0, k as int);
        if t.len() > 0 {
            assert(t.last() == cs@[k - 1]);
        }
        assert(trim_end_cr(t) == t);
    }
    let b = k == 3 && cs[0] == '-' && cs[1] == '-' && cs[2] == '-';
    proof {
        let t = cs@.subrange(0, k as int);
        if b {
            assert(t =~= seq!['-', '-', '-']);
        }
        if t == seq!['-', '-', '-'] {
            assert(t[0] == cs@[0] && t[1] == cs@[1] && t[2] == cs@[2]);
        }
    }
    b
}

/// The index of the first delimiter line at or after `from`, if any.
pub open spec fn first_delimiter(ls: Seq<Seq<char>>, from: int) -> Option<int>
    decreases ls.len() - from,
{
    if from < 0 || from >= ls.len() {
        None
    } else if is_delimiter(ls[from]) {
        Some(from)
    } else {
        first_delimiter(ls, from + 1)
    }
}

proof fn lemma_first_delimiter(ls: Seq<Seq<char>>, from: int, e: int)
    requires
        0 <= from <= e <= ls.len(),
        forall|j: int| from <= j < e ==> !is_delimiter(#[trigger] ls[j]),
        e == ls.len() || is_delimiter(ls[e]),
    ensures
        first_delimiter(ls, from) == if e == ls.len() {
            None
        } else {
            Some(e)
        },
    decreases e - from,
{
    if from < e {
        lemma_first_delimiter(ls, from + 1, e);
    }
}

/// A Markdown source split into its frontmatter text (if it has one) and its
/// body.
pub struct SplitSource {
    pub yaml: Option<String>,
    pub body: String,
}

/// Why a source could not be split.
#[derive(Debug)]
pub enum FrontmatterError {
    /// The source opens a frontmatter with `---` and never closes it.
    Unclosed,
}

/// What splitting a source gives: `None` for the frontmatter when the first
/// line is no delimiter (the body is then the whole source); else the lines
/// between the first and the next delimiter, and the lines after it, each
/// joined with `\n`; an error when no delimiter closes the frontmatter.
pub open spec fn split_source(raw: Seq<char>) -> Option<(Option<Seq<char>>, Seq<char>)> {
    let ls = lines(raw);
    if ls.len() == 0 || !is_delimiter(ls[0]) {
        Some((None, raw))
    } else {
        match first_delimiter(ls, 1) {
            None => None,
            Some(e) => Some(
                (
                    Some(join(ls.subrange(1, e), "\n"@)),
                    join(ls.subrange(e + 1, ls.len() as int), "\n"@),
                ),
            ),
        }
    }
}

proof fn lemma_first_delimiter_found(ls: Seq<Seq<char>>, from: int)
    requires
        0 <= from,
    ensures
        match first_delimiter(ls, from) {
            Some(e) => from <= e < ls.len() && is_delimiter(ls[e]) && forall|j: int|
                from <= j < e ==> !is_delimiter(#[trigger] ls[j]),
            None => forall|j: int| from <= j < ls.len() ==> !is_delimiter(#[trigger] ls[j]),
        },
    decreases ls.len() - from,
{
    if from < ls.len() && !is_delimiter(ls[from]) {
        lemma_first_delimiter_found(ls, from + 1);
    }
}

/// How a source splits, line by line: a source whose first line is no
/// `---` delimiter has no frontmatter and is all body; otherwise the
/// frontmatter is closed by the first delimiter line after the opening one
/// (so it holds no delimiter line itself), the YAML text is the lines in
/// between and the body the lines after it; when no line closes it, the
/// source is refused.
pub proof fn lemma_split_source_lines(raw: Seq<char>)
    ensures
        ({
            let ls = lines(raw);
            match split_source(raw) {
                Some((None, body)) => body == raw && (ls.len() == 0 || !is_delimiter(ls[0])),
                Some((Some(yaml), body)) => exists|e: int|
                    #![trigger ls[e]]
                    1 <= e < ls.len() && is_delimiter(ls[0]) && is_delimiter(ls[e]) && (forall|
                        j: int,
                    | 0 < j < e ==> !is_delimiter(#[trigger] ls[j])) && yaml == join(
                        ls.subrange(1, e),
                        "\n"@,
                    ) && body == join(ls.subrange(e + 1, ls.len() as int), "\n"@),
                None => ls.len() > 0 && is_delimiter(ls[0]) && forall|j: int|
                    0 < j < ls.len() ==> !is_delimiter(#[trigger] ls[j]),
            }
        }),
{
    lemma_first_delimiter_found(lines(raw), 1);
}

/// Splits a Markdown source into its YAML frontmatter and its body. The
/// frontmatter is what stands between a first line `---` and the next line
/// `---`; a source whose first line is not `---` has no frontmatter and is all
/// body.
pub fn split_frontmatter(raw: &str) -> (r: Result<SplitSource, FrontmatterError>)
    ensures
        match r {
            Ok(split) => split_source(raw@) == Some(
                (
                    match split.yaml {
                        Some(y) => Some(y@),
                        None => None,
                    },
                    split.body@,
                ),
            ),
            Err(FrontmatterError::Unclosed) => split_source(raw@) is None,
        },
{
    let ls = lines_of(raw);
    let ghost vs = views(ls@);
    if ls.len() == 0 || !is_delimiter_line(&ls[0]) {
        return Ok(SplitSource { yaml: None, body: String::from_str(raw) });
    }
    let mut e: usize = 1;
    while e < ls.len() && !is_delimiter_line(&ls[e])
        invariant
            1 <= e <= ls@.len(),
            vs == views(ls@),
            forall|j: int| 1 <= j < e ==> !is_delimiter(#[trigger] vs[j]),
        decreases ls@.len() - e,
    {
        e = e + 1;
    }
    proof {
        lemma_first_delimiter(vs, 1, e as int);
    }
    if e == ls.len() {
        return Err(FrontmatterError::Unclosed);
    }
    let yaml = join_range(&ls, 1, e, "\n");
    let body = join_range(&ls, e + 1, ls.len(), "\n");
    Ok(SplitSource { yaml: Some(yaml), body })
}

} // verus!
