//! Special pages: hand-written HTML fragments under `Special/`, wrapped in the
//! shared page template.
use vstd::prelude::*;
use crate::html::{document, full_html_document, is_full_html_document, render_document_html};
use crate::paths::{file_stem, has_extension, has_extension_ignore_case, name_view, stem_of};
use crate::text::{chars_eq_ignore_ascii_case, chars_of, eq_ignore_ascii_case, replace_char, replace_char_in};

verus! {

/// Where a special page goes below the site root.
#[derive(Debug, PartialEq, Eq, Structural)]
pub enum SpecialTarget {
    /// `index.html` at the site root (for `home.html`).
    SiteIndex,
    /// The same path as below `Special/`.
    SamePath,
}

/// A wrapped special page.
pub struct SpecialPage {
    pub target: SpecialTarget,
    pub title: String,
    pub html: String,
}

/// Why a special page was refused.
#[derive(Debug)]
pub enum SpecialPageError {
    /// The file (its path below `Special/` given) is a full HTML document,
    /// not a fragment.
    FullDocument(String),
}

/// Whether a file under `Special/` is a page to wrap (extension `html`, in any
/// case); other files are copied as they are.
pub fn is_special_page(file_name: Option<&str>) -> (b: bool)
    ensures
        b == has_extension(name_view(file_name), "html"@),
{
    has_extension_ignore_case(file_name, "html")
}

/// Whether a special page is the home page.
pub open spec fn is_home(relative: Seq<char>) -> bool {
    eq_ignore_ascii_case(relative, "home.html"@)
}

/// The title of a special page: `Home` for the home page, else the file stem
/// when it is not empty, else `Page`.
pub open spec fn special_title(relative: Seq<char>, file_name: Option<Seq<char>>) -> Seq<char> {
    if is_home(relative) {
        "Home"@
    } else {
        match file_stem(file_name) {
            Some(s) => if s.len() > 0 {
                s
            } else {
                "Page"@
            },
            None => "Page"@,
        }
    }
}

/// Wraps the fragment of a special page (its path below `Special/` given, and
/// its file name): a full HTML document is refused; `home.html` (in any case)
/// becomes the site's `index.html` titled `Home`; any other page keeps its
/// path and is titled by its file stem.
pub fn render_special_page(relative_path: &str, file_name: Option<&str>, fragment: &str) -> (r:
    Result<SpecialPage, SpecialPageError>)
    ensures
        full_html_document(fragment@) <==> r is Err,
        r matches Err(SpecialPageError::FullDocument(p)) ==> p@ == replace_char(
            relative_path@,
            '\\',
            '/',
        ),
        r matches Ok(page) ==> {
            let rel = replace_char(relative_path@, '\\', '/');
            let title = special_title(rel, name_view(file_name));
            &&& page.target == (if is_home(rel) {
                SpecialTarget::SiteIndex
            } else {
                SpecialTarget::SamePath
            })
            &&& page.title@ == title
            &&& page.html@ == document(title, fragment@)
        },
{
    let relative = replace_char_in(relative_path, '\\', '/');
    if is_full_html_document(fragment) {
        return Err(SpecialPageError::FullDocument(relative));
    }
    let rel_chars = chars_of(relative.as_str());
    let home_chars = chars_of("home.html");
    let home = chars_eq_ignore_ascii_case(&rel_chars, &home_chars);
    let title = if home {
        String::from_str("Home")
    } else {
        match stem_of(file_name) {
            Some(s) => {
                if s.as_str().is_empty() {
                    String::from_str("Page")
                } else {
                    s
                }
            },
            None => String::from_str("Page"),
        }
    };
    let html = render_document_html(title.as_str(), fragment);
    let target = if home {
        SpecialTarget::SiteIndex
    } else {
        SpecialTarget::SamePath
    };
    Ok(SpecialPage { target, title, html })
}

} // verus!
