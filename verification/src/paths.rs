//! File names: their stem and extension, and the order in which sources are
//! processed.
use vstd::prelude::*;
use crate::order::{char_views, sort_order, stable_order};
use crate::text::{
    chars_eq_ignore_ascii_case, chars_of, eq_ignore_ascii_case, push_range, string_of, views,
};

verus! {

/// The index of the last `.` in a name, if it has one.
pub open spec fn last_dot(name: Seq<char>) -> Option<int>
    decreases name.len(),
{
    if name.len() == 0 {
        None
    } else if name.last() == '.' {
        Some(name.len() - 1)
    } else {
        last_dot(name.drop_last())
    }
}

/// A file name split at its last `.` into stem and extension, as `Path`
/// does: `..`, a name without `.`, and a name whose only `.` is its first
/// character have no extension and are all stem.
pub open spec fn split_name(name: Seq<char>) -> (Seq<char>, Option<Seq<char>>) {
    if name == seq!['.', '.'] {
        (name, None)
    } else {
        match last_dot(name) {
            None => (name, None),
            Some(i) => if i == 0 {
                (name, None)
            } else {
                (name.take(i), Some(name.skip(i + 1)))
            },
        }
    }
}

/// The view of an optional file name.
pub open spec fn name_view(name: Option<&str>) -> Option<Seq<char>> {
    match name {
        Some(n) => Some(n@),
        None => None,
    }
}

/// `Path::file_stem` of a path with the given file name.
pub open spec fn file_stem(name: Option<Seq<char>>) -> Option<Seq<char>> {
    match name {
        Some(n) => Some(split_name(n).0),
        None => None,
    }
}

/// `Path::extension` of a path with the given file name.
pub open spec fn extension(name: Option<Seq<char>>) -> Option<Seq<char>> {
    match name {
        Some(n) => split_name(n).1,
        None => None,
    }
}

/// Whether a path with this file name has the given extension, in any ASCII
/// case.
pub open spec fn has_extension(name: Option<Seq<char>>, ext: Seq<char>) -> bool {
    match extension(name) {
        Some(e) => eq_ignore_ascii_case(e, ext),
        None => false,
    }
}

proof fn lemma_last_dot_at(name: Seq<char>, k: int)
    requires
        -1 <= k < name.len(),
        forall|j: int| k < j < name.len() ==> #[trigger] name[j] != '.',
        k == -1 || name[k] == '.',
    ensures
        last_dot(name) == if k == -1 {
            None
        } else {
            Some(k)
        },
    decreases name.len(),
{
    if name.len() > 0 && k < name.len() - 1 {
        lemma_last_dot_at(name.drop_last(), k);
    }
}

/// Splits a file name into stem and extension, as `Path::file_stem` and
/// `Path::extension` do.
pub fn split_file_name(name: &str) -> (r: (String, Option<String>))
    ensures
        r.0@ == split_name(name@).0,
        match r.1 {
            Some(e) => split_name(name@).1 == Some(e@),
            None => split_name(name@).1 is None,
        },
{
    let cs = chars_of(name);
    let mut k: usize = cs.len();
    while k > 0 && cs[k - 1] != '.'
        invariant
            k <= cs@.len(),
            cs@ == name@,
            forall|j: int| k <= j < cs@.len() ==> #[trigger] cs@[j] != '.',
        decreases k,
    {
        k = k - 1;
    }
    proof {
        lemma_last_dot_at(cs@, k - 1);
    }
    let is_dot_dot = cs.len() == 2 && cs[0] == '.' && cs[1] == '.';
    proof {
        if cs@ == seq!['.', '.'] {
            assert(cs@[0] == '.' && cs@[1] == '.');
        }
        if is_dot_dot {
            assert(cs@ =~= seq!['.', '.']);
        }
    }
    if is_dot_dot || k <= 1 {
        return (string_of(&cs), None);
    }
    let mut stem = String::new();
    push_range(&mut stem, &cs, 0, k - 1);
    let mut ext = String::new();
    push_range(&mut ext, &cs, k, cs.len());
    assert(cs@.subrange(0, k - 1) == cs@.take(k - 1));
    assert(cs@.subrange(k as int, cs@.len() as int) == cs@.skip(k as int));
    (stem, Some(ext))
}

/// `Path::file_stem` of a path with the given file name.
pub fn stem_of(name: Option<&str>) -> (r: Option<String>)
    ensures
        match r {
            Some(s) => file_stem(name_view(name)) == Some(s@),
            None => file_stem(name_view(name)) is None,
        },
{
    match name {
        Some(n) => Some(split_file_name(n).0),
        None => None,
    }
}

/// Whether a path with this file name has extension `ext`, in any ASCII case,
/// as `extension().is_some_and(|e| e.eq_ignore_ascii_case(ext))` decides.
pub fn has_extension_ignore_case(name: Option<&str>, ext: &str) -> (b: bool)
    ensures
        b == has_extension(name_view(name), ext@),
{
    match name {
        Some(n) => {
            let (_, e) = split_file_name(n);
            match e {
                Some(e) => {
                    let ec = chars_of(e.as_str());
                    let xc = chars_of(ext);
                    chars_eq_ignore_ascii_case(&ec, &xc)
                },
                None => false,
            }
        },
        None => false,
    }
}

/// Whether a file is a Markdown source: its extension is `md`, in any case.
pub fn is_markdown_source(file_name: Option<&str>) -> (b: bool)
    ensures
        b == has_extension(name_view(file_name), "md"@),
{
    has_extension_ignore_case(file_name, "md")
}

/// The components of each path, as texts.
pub open spec fn path_keys(paths: Seq<Vec<String>>) -> Seq<Seq<Seq<char>>> {
    paths.map_values(|p: Vec<String>| views(p@))
}

/// The order in which Markdown sources are processed: their paths sorted
/// ascending, component by component. Each path is given by its components.
pub fn order_sources(paths: &Vec<Vec<String>>) -> (order: Vec<usize>)
    ensures
        order@.map_values(|i: usize| i as int) == stable_order(path_keys(paths@), false),
{
    let mut keys: Vec<Vec<Vec<char>>> = Vec::new();
    let mut i: usize = 0;
    while i < paths.len()
        invariant
            i <= paths@.len(),
            keys@.len() == i,
            forall|j: int| 0 <= j < i ==> char_views(#[trigger] keys@[j]@) == views(paths@[j]@),
        decreases paths@.len() - i,
    {
        let mut key: Vec<Vec<char>> = Vec::new();
        let mut k: usize = 0;
        while k < paths[i].len()
            invariant
                i < paths@.len(),
                k <= paths@[i as int]@.len(),
                key@.len() == k,
                forall|j: int| 0 <= j < k ==> #[trigger] key@[j]@ == paths@[i as int]@[j]@,
            decreases paths@[i as int]@.len() - k,
        {
            key.push(chars_of(paths[i][k].as_str()));
            k = k + 1;
        }
        assert(char_views(key@) =~= views(paths@[i as int]@));
        keys.push(key);
        i = i + 1;
    }
    assert(keys@.map_values(|k: Vec<Vec<char>>| char_views(k@)) =~= path_keys(paths@));
    sort_order(&keys, false)
}

} // verus!
