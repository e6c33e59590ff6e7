//! The article page and its parts: breadcrumbs, dates, tags and summary.
use vstd::prelude::*;
use crate::html::{display_date, document, escape, escape_html, render_document_html, to_display_date};
use crate::text::{contains, join, join_strings, lemma_join_push, occurs_at, views};

verus! {

/// The view of an optional string slice.
pub open spec fn opt_view(o: Option<&str>) -> Option<Seq<char>> {
    match o {
        Some(s) => Some(s@),
        None => None,
    }
}

/// The first breadcrumb, a link to the home page.
pub open spec fn home_crumb() -> Seq<char> {
    "<a href=\"/\">Home</a>"@
}

/// The breadcrumb of the `i`-th section: a link to the path of the first
/// `i + 1` section slugs, named by the escaped section name.
pub open spec fn section_crumb(slugs: Seq<Seq<char>>, name: Seq<char>, i: int) -> Seq<char> {
    "<a href=\"/"@ + join(slugs.take(i + 1), "/"@) + "/\">"@ + escape(name) + "</a>"@
}

/// The last breadcrumb, the escaped title of the page itself.
pub open spec fn current_crumb(title: Seq<char>) -> Seq<char> {
    "<span class=\"breadcrumb-current\">"@ + escape(title) + "</span>"@
}

/// Home, one crumb for each section that has both a name and a slug, and the
/// page itself.
pub open spec fn breadcrumb_items(
    names: Seq<Seq<char>>,
    slugs: Seq<Seq<char>>,
    title: Seq<char>,
) -> Seq<Seq<char>> {
    let n = if names.len() <= slugs.len() {
        names.len()
    } else {
        slugs.len()
    };
    seq![home_crumb()] + Seq::new(n, |i: int| section_crumb(slugs, names[i], i)) + seq![
        current_crumb(title),
    ]
}

/// The breadcrumb navigation: the items joined with ` &gt; `.
pub open spec fn breadcrumbs(names: Seq<Seq<char>>, slugs: Seq<Seq<char>>, title: Seq<char>) -> Seq<
    char,
> {
    "<nav class=\"breadcrumbs\" aria-label=\"breadcrumb\">"@ + join(
        breadcrumb_items(names, slugs, title),
        " &gt; "@,
    ) + "</nav>"@
}

/// Every part of a joined list stands in the joined text.
proof fn lemma_join_contains_part(parts: Seq<Seq<char>>, sep: Seq<char>, k: int)
    requires
        0 <= k < parts.len(),
    ensures
        contains(join(parts, sep), parts[k]),
    decreases parts.len(),
{
    let t = join(parts, sep);
    if parts.len() == 1 {
        assert(t == parts[0]);
        assert(t.subrange(0, parts[k].len() as int) =~= parts[k]);
        assert(occurs_at(t, parts[k], 0));
    } else if k == parts.len() - 1 {
        let pre = join(parts.drop_last(), sep) + sep;
        assert(t == pre + parts.last());
        assert(t.subrange(pre.len() as int, (pre.len() + parts[k].len()) as int) =~= parts[k]);
        assert(occurs_at(t, parts[k], pre.len() as int));
    } else {
        lemma_join_contains_part(parts.drop_last(), sep, k);
        let u = join(parts.drop_last(), sep);
        assert(parts.drop_last()[k] == parts[k]);
        let i = choose|i: int| occurs_at(u, parts[k], i);
        assert(t == u + sep + parts.last());
        assert(t.subrange(i, i + parts[k].len()) =~= u.subrange(i, i + parts[k].len()));
        assert(occurs_at(t, parts[k], i));
    }
}

/// A text that stands in `m` stands in anything that holds `m`.
proof fn lemma_contains_within(a: Seq<char>, m: Seq<char>, b: Seq<char>, x: Seq<char>)
    requires
        contains(m, x),
    ensures
        contains(a + m + b, x),
{
    let i = choose|i: int| occurs_at(m, x, i);
    let t = a + m + b;
    assert(t.subrange(a.len() + i, a.len() + i + x.len()) =~= m.subrange(i, i + x.len()));
    assert(occurs_at(t, x, a.len() + i));
}

/// The breadcrumbs hold, for each section that has a name and a slug, a link
/// to `/` followed by the slugs of that section and of all sections above
/// it, joined with `/`, then `/`; the link reads as the escaped section name.
pub proof fn lemma_breadcrumb_section_links(
    names: Seq<Seq<char>>,
    slugs: Seq<Seq<char>>,
    title: Seq<char>,
    i: int,
)
    requires
        0 <= i < names.len(),
        i < slugs.len(),
    ensures
        contains(
            breadcrumbs(names, slugs, title),
            "<a href=\"/"@ + join(slugs.take(i + 1), "/"@) + "/\">"@ + escape(names[i]) + "</a>"@,
        ),
{
    let items = breadcrumb_items(names, slugs, title);
    assert(items[i + 1] == section_crumb(slugs, names[i], i));
    lemma_join_contains_part(items, " &gt; "@, i + 1);
    lemma_contains_within(
        "<nav class=\"breadcrumbs\" aria-label=\"breadcrumb\">"@,
        join(items, " &gt; "@),
        "</nav>"@,
        items[i + 1],
    );
}

/// The breadcrumb navigation of a page: Home, each section (linked to the
/// path of its slug and those before it), and the page's own title.
pub fn render_breadcrumbs(components: &Vec<String>, section_slugs: &Vec<String>, title: &str) -> (r:
    String)
    ensures
        r@ == breadcrumbs(views(components@), views(section_slugs@), title@),
{
    let ghost names = views(components@);
    let ghost slugs = views(section_slugs@);
    let n = if components.len() <= section_slugs.len() {
        components.len()
    } else {
        section_slugs.len()
    };
    let mut items: Vec<String> = Vec::new();
    items.push(String::from_str("<a href=\"/\">Home</a>"));
    let mut path = String::new();
    let mut i: usize = 0;
    while i < n
        invariant
            i <= n <= components@.len(),
            n <= section_slugs@.len(),
            names == views(components@),
            slugs == views(section_slugs@),
            path@ == join(slugs.take(i as int), "/"@),
            views(items@) == seq![home_crumb()] + Seq::new(
                i as nat,
                |j: int| section_crumb(slugs, names[j], j),
            ),
        decreases n - i,
    {
        if i > 0 {
            path.append("/");
        }
        path.append(section_slugs[i].as_str());
        proof {
            assert(slugs.take(i + 1) == slugs.take(i as int).push(slugs[i as int]));
            lemma_join_push(slugs.take(i as int), slugs[i as int], "/"@);
        }
        let mut link = String::from_str("<a href=\"/");
        link.append(path.as_str());
        link.append("/\">");
        let escaped = escape_html(components[i].as_str());
        link.append(escaped.as_str());
        link.append("</a>");
        let ghost before = views(items@);
        items.push(link);
        proof {
            assert(link@ == section_crumb(slugs, names[i as int], i as int));
            assert(views(items@) =~= before.push(link@));
            assert(views(items@) =~= seq![home_crumb()] + Seq::new(
                (i + 1) as nat,
                |j: int| section_crumb(slugs, names[j], j),
            ));
        }
        i = i + 1;
    }
    let mut current = String::from_str("<span class=\"breadcrumb-current\">");
    let escaped_title = escape_html(title);
    current.append(escaped_title.as_str());
    current.append("</span>");
    let ghost before = views(items@);
    items.push(current);
    proof {
        assert(views(items@) =~= before.push(current@));
        assert(views(items@) =~= breadcrumb_items(names, slugs, title@));
    }
    let joined = join_strings(&items, " &gt; ");
    let mut r = String::from_str("<nav class=\"breadcrumbs\" aria-label=\"breadcrumb\">");
    r.append(joined.as_str());
    r.append("</nav>");
    r
}

/// A tag as a chip.
pub open spec fn tag_chip(tag: Seq<char>) -> Seq<char> {
    "<span class=\"tag-chip\">"@ + escape(tag) + "</span>"@
}

/// The chips of the tags, one after another.
pub open spec fn tag_chips(tags: Seq<Seq<char>>) -> Seq<char>
    decreases tags.len(),
{
    if tags.len() == 0 {
        Seq::empty()
    } else {
        tag_chips(tags.drop_last()) + tag_chip(tags.last())
    }
}

/// The tag block: nothing without tags, else the chips in a `div`.
pub open spec fn tags_block(tags: Seq<Seq<char>>) -> Seq<char> {
    if tags.len() == 0 {
        Seq::empty()
    } else {
        "<div class=\"article-tags\">"@ + tag_chips(tags) + "</div>"@
    }
}

/// Renders the tag block.
pub fn render_tags_block(tags: &Vec<String>) -> (r: String)
    ensures
        r@ == tags_block(views(tags@)),
{
    if tags.len() == 0 {
        return String::new();
    }
    let ghost all = views(tags@);
    let mut r = String::from_str("<div class=\"article-tags\">");
    let mut i: usize = 0;
    while i < tags.len()
        invariant
            i <= tags@.len(),
            all == views(tags@),
            r@ == "<div class=\"article-tags\">"@ + tag_chips(all.take(i as int)),
        decreases tags@.len() - i,
    {
        let escaped = escape_html(tags[i].as_str());
        r.append("<span class=\"tag-chip\">");
        r.append(escaped.as_str());
        r.append("</span>");
        assert(all.take(i + 1).drop_last() == all.take(i as int));
        i = i + 1;
    }
    assert(all.take(tags@.len() as int) == all);
    r.append("</div>");
    r
}

/// When an article was written, as an ISO timestamp and for display.
pub open spec fn created_time(created: Seq<char>) -> Seq<char> {
    "<time datetime=\""@ + escape(created) + "\">作成: "@ + escape(display_date(created))
        + "</time>"@
}

/// When an article was last changed, if that is shown.
pub open spec fn updated_time(updated: Option<Seq<char>>) -> Seq<char> {
    match updated {
        Some(d) => " / <time datetime=\""@ + escape(d) + "\">更新: "@ + escape(display_date(d))
            + "</time>"@,
        None => Seq::empty(),
    }
}

/// Renders `created_time` followed by `updated_time`.
pub fn render_times(created_at: &str, updated_at: Option<&str>) -> (r: String)
    ensures
        r@ == created_time(created_at@) + updated_time(opt_view(updated_at)),
{
    let mut r = String::from_str("<time datetime=\"");
    let escaped_created = escape_html(created_at);
    r.append(escaped_created.as_str());
    r.append("\">作成: ");
    let display_created = to_display_date(created_at);
    let escaped_display = escape_html(display_created.as_str());
    r.append(escaped_display.as_str());
    r.append("</time>");
    match updated_at {
        Some(date) => {
            r.append(" / <time datetime=\"");
            let escaped_date = escape_html(date);
            r.append(escaped_date.as_str());
            r.append("\">更新: ");
            let display_date_text = to_display_date(date);
            let escaped_display_date = escape_html(display_date_text.as_str());
            r.append(escaped_display_date.as_str());
            r.append("</time>");
        },
        None => {},
    }
    r
}

/// The summary paragraph, if there is a summary.
pub open spec fn summary_block(summary: Option<Seq<char>>) -> Seq<char> {
    match summary {
        Some(s) => "<p class=\"article-summary\">"@ + escape(s) + "</p>"@,
        None => Seq::empty(),
    }
}

/// The content of an article page: breadcrumbs, escaped title, dates, tags,
/// summary, and the body as it stands.
pub open spec fn article_content(
    title: Seq<char>,
    summary: Option<Seq<char>>,
    tags: Seq<Seq<char>>,
    created_at: Seq<char>,
    updated_at: Option<Seq<char>>,
    breadcrumb_html: Seq<char>,
    body_html: Seq<char>,
) -> Seq<char> {
    "<main><article class=\"article-card\">"@ + breadcrumb_html + "<h1 class=\"article-title\">"@
        + escape(title) + "</h1>"@ + "<div class=\"article-meta\">"@
        + "<p class=\"article-dates\">"@ + created_time(created_at) + updated_time(updated_at)
        + "</p>"@ + tags_block(tags) + "</div>"@ + summary_block(summary)
        + "<div class=\"article-body\">"@ + body_html + "</div></article></main>"@
}

/// The full page of an article.
pub open spec fn article_page(
    title: Seq<char>,
    summary: Option<Seq<char>>,
    tags: Seq<Seq<char>>,
    created_at: Seq<char>,
    updated_at: Option<Seq<char>>,
    breadcrumb_html: Seq<char>,
    body_html: Seq<char>,
) -> Seq<char> {
    document(
        title,
        article_content(title, summary, tags, created_at, updated_at, breadcrumb_html, body_html),
    )
}

/// Renders the page of an article around its HTML body.
pub fn render_article_html(
    title: &str,
    summary: Option<&str>,
    tags: &Vec<String>,
    created_at: &str,
    updated_at: Option<&str>,
    breadcrumb_html: &str,
    body_html: &str,
) -> (r: String)
    ensures
        r@ == article_page(
            title@,
            opt_view(summary),
            views(tags@),
            created_at@,
            opt_view(updated_at),
            breadcrumb_html@,
            body_html@,
        ),
{
    let escaped_title = escape_html(title);
    let mut summary_html = String::new();
    match summary {
        Some(s) => {
            summary_html.append("<p class=\"article-summary\">");
            let escaped = escape_html(s);
            summary_html.append(escaped.as_str());
            summary_html.append("</p>");
        },
        None => {},
    }
    let tags_html = render_tags_block(tags);
    let times = render_times(created_at, updated_at);
    let mut content = String::from_str("<main><article class=\"article-card\">");
    content.append(breadcrumb_html);
    content.append("<h1 class=\"article-title\">");
    content.append(escaped_title.as_str());
    content.append("</h1>");
    content.append("<div class=\"article-meta\">");
    content.append("<p class=\"article-dates\">");
    content.append(times.as_str());
    content.append("</p>");
    content.append(tags_html.as_str());
    content.append("</div>");
    content.append(summary_html.as_str());
    content.append("<div class=\"article-body\">");
    content.append(body_html);
    content.append("</div></article></main>");
    assert(summary_html@ == summary_block(opt_view(summary)));
    assert(content@ =~= article_content(
        title@,
        opt_view(summary),
        views(tags@),
        created_at@,
        opt_view(updated_at),
        breadcrumb_html@,
        body_html@,
    ));
    render_document_html(title, content.as_str())
}

} // verus!
