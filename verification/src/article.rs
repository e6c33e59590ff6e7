//! From one Markdown source to its article: the plan (title, slugs, path) and
//! the rendered page with its manifest entry.
use vstd::prelude::*;
use crate::external::{commonmark_html, markdown_to_html};
use crate::frontmatter::Frontmatter;
use crate::git::GitDates;
use crate::page::{article_page, breadcrumbs, render_article_html, render_breadcrumbs};
use crate::paths::{file_stem, name_view, stem_of};
use crate::slug::{
    candidate, ensure_unique_article_slug, first_free_try, is_url_safe_slug,
    lemma_candidate_url_safe, lemma_slug_is_url_safe, slug_of, slugify, url_path, UrlRegistry,
};
use crate::text::{join, join_strings, replace_char, replace_char_in, views};

verus! {

/// The view of an optional string.
pub open spec fn opt_string_view(o: Option<String>) -> Option<Seq<char>> {
    match o {
        Some(s) => Some(s@),
        None => None,
    }
}

/// The tags of a frontmatter, none when it gives none.
pub open spec fn tags_view(o: Option<Vec<String>>) -> Seq<Seq<char>> {
    match o {
        Some(t) => views(t@),
        None => Seq::empty(),
    }
}

/// The title of an article: the frontmatter's, else the stem of the file
/// name, else `untitled`.
pub open spec fn article_title(fm_title: Option<Seq<char>>, file_name: Option<Seq<char>>) -> Seq<
    char,
> {
    match fm_title {
        Some(t) => t,
        None => match file_stem(file_name) {
            Some(s) => s,
            None => "untitled"@,
        },
    }
}

/// The slug an article asks for: the slug of the frontmatter's `slug` when
/// that is not empty, else the slug of the title.
pub open spec fn requested_slug(fm_slug: Option<Seq<char>>, title: Seq<char>) -> Seq<char> {
    match fm_slug {
        Some(s) => if slug_of(s).len() > 0 {
            slug_of(s)
        } else {
            slug_of(title)
        },
        None => slug_of(title),
    }
}

/// The slugs of the section names.
pub open spec fn section_slugs_of(components: Seq<Seq<char>>) -> Seq<Seq<char>> {
    components.map_values(|c: Seq<char>| slug_of(c))
}

/// Every article's slug is URL-safe: the requested slug is a slug, and the
/// numbered tries only add `-` and digits.
pub proof fn lemma_article_slug_url_safe(fm_slug: Option<Seq<char>>, title: Seq<char>, k: nat)
    ensures
        is_url_safe_slug(candidate(requested_slug(fm_slug, title), k)),
{
    match fm_slug {
        Some(s) => {
            lemma_slug_is_url_safe(s);
        },
        None => {},
    }
    lemma_slug_is_url_safe(title);
    lemma_candidate_url_safe(requested_slug(fm_slug, title), k);
}

/// Every section slug of an article is URL-safe.
pub proof fn lemma_section_slugs_url_safe(components: Seq<Seq<char>>)
    ensures
        forall|i: int|
            0 <= i < components.len() ==> is_url_safe_slug(#[trigger] section_slugs_of(components)[i]),
{
    assert forall|i: int| 0 <= i < components.len() implies is_url_safe_slug(
        #[trigger] section_slugs_of(components)[i],
    ) by {
        lemma_slug_is_url_safe(components[i]);
    }
}

/// The URL of an article: its path between two `/`.
pub open spec fn article_url(sections: Seq<Seq<char>>, slug: Seq<char>) -> Seq<char> {
    "/"@ + url_path(sections, slug) + "/"@
}

/// What is known of a planned article.
pub struct PlanView {
    pub title: Seq<char>,
    pub tags: Seq<Seq<char>>,
    pub summary: Option<Seq<char>>,
    pub source: Seq<char>,
    pub components: Seq<Seq<char>>,
    pub section_slugs: Seq<Seq<char>>,
    pub slug: Seq<char>,
}

/// An article that has its title, its sections and its slug, and waits for
/// its dates and its body.
pub struct ArticlePlan {
    title: String,
    tags: Vec<String>,
    summary: Option<String>,
    source: String,
    components: Vec<String>,
    section_slugs: Vec<String>,
    slug: String,
}

impl ArticlePlan {
    #[verifier::type_invariant]
    spec fn wf(self) -> bool {
        &&& self.components@.len() >= 1
        &&& self.section_slugs@.len() == self.components@.len()
    }
}

impl View for ArticlePlan {
    type V = PlanView;

    closed spec fn view(&self) -> PlanView {
        PlanView {
            title: self.title@,
            tags: views(self.tags@),
            summary: opt_string_view(self.summary),
            source: self.source@,
            components: views(self.components@),
            section_slugs: views(self.section_slugs@),
            slug: self.slug@,
        }
    }
}

impl ArticlePlan {
    /// The path of the source below `Pages/`, with `/` between components.
    pub fn source(&self) -> (s: &String)
        ensures
            s@ == self@.source,
    {
        &self.source
    }

    /// The article's slug.
    pub fn slug(&self) -> (s: &String)
        ensures
            s@ == self@.slug,
    {
        &self.slug
    }
}

fn clone_strings(v: &Vec<String>) -> (r: Vec<String>)
    ensures
        r@ == v@,
{
    let mut r: Vec<String> = Vec::new();
    let mut i: usize = 0;
    while i < v.len()
        invariant
            i <= v@.len(),
            r@ == v@.take(i as int),
        decreases v@.len() - i,
    {
        r.push(v[i].clone());
        assert(r@ =~= v@.take(i + 1));
        i = i + 1;
    }
    assert(v@.take(v@.len() as int) == v@);
    r
}

/// Plans the article of a Markdown source: none for a draft or for a source
/// directly under `Pages/` (no section); else its title, the slugs of its
/// sections, and a slug whose URL no article of this build has yet, which it
/// records as used.
pub fn prepare_article(
    frontmatter: Frontmatter,
    components: Vec<String>,
    file_name: Option<&str>,
    relative_path: &str,
    used_urls: &mut UrlRegistry,
) -> (plan: Option<ArticlePlan>)
    requires
        old(used_urls)@.len() < usize::MAX,
    ensures
        (frontmatter.draft == Some(true) || components@.len() == 0) ==> plan is None
            && final(used_urls)@ == old(used_urls)@,
        !(frontmatter.draft == Some(true) || components@.len() == 0) ==> plan is Some,
        plan matches Some(p) ==> {
            let title = article_title(opt_string_view(frontmatter.title), name_view(file_name));
            let sections = section_slugs_of(views(components@));
            let requested = requested_slug(opt_string_view(frontmatter.slug), title);
            &&& p@.title == title
            &&& p@.tags == tags_view(frontmatter.tags)
            &&& p@.summary == opt_string_view(frontmatter.summary)
            &&& p@.source == replace_char(relative_path@, '\\', '/')
            &&& p@.components == views(components@)
            &&& p@.section_slugs == sections
            &&& exists|k: nat|
                first_free_try(old(used_urls)@, sections, requested, k) && p@.slug
                    == #[trigger] candidate(requested, k)
            &&& !old(used_urls)@.contains(url_path(sections, p@.slug))
            &&& final(used_urls)@ == old(used_urls)@.insert(url_path(sections, p@.slug))
        },
{
    match frontmatter.draft {
        Some(d) => {
            if d {
                return None;
            }
        },
        None => {},
    }
    if components.len() == 0 {
        return None;
    }
    let ghost fm_title = opt_string_view(frontmatter.title);
    let title = match frontmatter.title {
        Some(t) => t,
        None => match stem_of(file_name) {
            Some(s) => s,
            None => String::from_str("untitled"),
        },
    };
    assert(title@ == article_title(fm_title, name_view(file_name)));
    let mut section_slugs: Vec<String> = Vec::new();
    let mut i: usize = 0;
    while i < components.len()
        invariant
            i <= components@.len(),
            views(section_slugs@) == section_slugs_of(views(components@)).take(i as int),
        decreases components@.len() - i,
    {
        let s = slugify(components[i].as_str());
        let ghost before = views(section_slugs@);
        section_slugs.push(s);
        proof {
            let all = section_slugs_of(views(components@));
            assert(views(section_slugs@) =~= before.push(s@));
            assert(all[i as int] == slug_of(components@[i as int]@));
            assert(all.take(i + 1) =~= all.take(i as int).push(all[i as int]));
        }
        i = i + 1;
    }
    assert(section_slugs_of(views(components@)).take(components@.len() as int)
        == section_slugs_of(views(components@)));
    let requested = match &frontmatter.slug {
        Some(s) => {
            let from_slug = slugify(s.as_str());
            if from_slug.as_str().is_empty() {
                slugify(title.as_str())
            } else {
                from_slug
            }
        },
        None => slugify(title.as_str()),
    };
    let slug = ensure_unique_article_slug(requested.as_str(), &section_slugs, used_urls);
    let source = replace_char_in(relative_path, '\\', '/');
    let tags = match frontmatter.tags {
        Some(t) => t,
        None => Vec::new(),
    };
    let plan = ArticlePlan {
        title,
        tags,
        summary: frontmatter.summary,
        source,
        components,
        section_slugs,
        slug,
    };
    assert(plan@.title == article_title(fm_title, name_view(file_name)));
    assert(plan@.tags == tags_view(frontmatter.tags));
    assert(plan@.summary == opt_string_view(frontmatter.summary));
    assert(plan@.section_slugs == section_slugs_of(views(components@)));
    assert(requested@ == requested_slug(opt_string_view(frontmatter.slug), plan@.title));
    Some(plan)
}

/// An article as the manifest lists it.
pub struct ManifestArticle {
    pub title: String,
    pub tags: Vec<String>,
    pub summary: Option<String>,
    pub source: String,
    pub url: String,
    pub category: String,
    pub subcategory: Vec<String>,
    pub slug: String,
    pub created_at: String,
    pub updated_at: String,
}

/// A finished article: where it goes below the site root, its page, and its
/// manifest entry.
pub struct RenderedArticle {
    pub output_dir: Vec<String>,
    pub html: String,
    pub article: ManifestArticle,
}

/// The update date when it differs from the creation date.
pub open spec fn shown_update(created_at: Seq<char>, updated_at: Seq<char>) -> Option<Seq<char>> {
    if created_at != updated_at {
        Some(updated_at)
    } else {
        None
    }
}

/// Finishes a planned article with its dates and its Markdown body: the page
/// goes to the directory of its section slugs and its slug, and its URL is
/// that path between two `/`.
pub fn build_article(plan: ArticlePlan, dates: GitDates, body: &str) -> (r: RenderedArticle)
    ensures
        views(r.output_dir@) == plan@.section_slugs.push(plan@.slug),
        r.html@ == article_page(
            plan@.title,
            plan@.summary,
            plan@.tags,
            dates.created_at@,
            shown_update(dates.created_at@, dates.updated_at@),
            breadcrumbs(plan@.components, plan@.section_slugs, plan@.title),
            commonmark_html(body@),
        ),
        r.article.title@ == plan@.title,
        views(r.article.tags@) == plan@.tags,
        opt_string_view(r.article.summary) == plan@.summary,
        r.article.source@ == plan@.source,
        r.article.url@ == article_url(plan@.section_slugs, plan@.slug),
        r.article.category@ == plan@.components[0],
        views(r.article.subcategory@) == plan@.components.drop_first(),
        r.article.slug@ == plan@.slug,
        r.article.created_at@ == dates.created_at@,
        r.article.updated_at@ == dates.updated_at@,
{
    proof {
        use_type_invariant(&plan);
    }
    let ghost pv = plan@;
    let mut output_dir = clone_strings(&plan.section_slugs);
    output_dir.push(plan.slug.clone());
    assert(views(output_dir@) =~= pv.section_slugs.push(pv.slug));
    let html_body = markdown_to_html(body);
    let breadcrumb_html = render_breadcrumbs(&plan.components, &plan.section_slugs, plan.title.as_str());
    let summary: Option<&str> = match &plan.summary {
        Some(s) => Some(s.as_str()),
        None => None,
    };
    let updated: Option<&str> = if dates.created_at != dates.updated_at {
        Some(dates.updated_at.as_str())
    } else {
        None
    };
    let html = render_article_html(
        plan.title.as_str(),
        summary,
        &plan.tags,
        dates.created_at.as_str(),
        updated,
        breadcrumb_html.as_str(),
        html_body.as_str(),
    );
    let joined = join_strings(&output_dir, "/");
    let mut url = String::from_str("/");
    url.append(joined.as_str());
    url.append("/");
    let mut subcategory: Vec<String> = Vec::new();
    let mut i: usize = 1;
    while i < plan.components.len()
        invariant
            1 <= i <= plan.components@.len(),
            views(plan.components@) == pv.components,
            views(subcategory@) == pv.components.subrange(1, i as int),
        decreases plan.components@.len() - i,
    {
        let c = plan.components[i].clone();
        let ghost before = views(subcategory@);
        subcategory.push(c);
        proof {
            assert(views(subcategory@) =~= before.push(c@));
            assert(c@ == pv.components[i as int]);
            assert(pv.components.subrange(1, i + 1) =~= pv.components.subrange(1, i as int).push(
                pv.components[i as int],
            ));
        }
        i = i + 1;
    }
    assert(pv.components.subrange(1, pv.components.len() as int) == pv.components.drop_first());
    let category = plan.components[0].clone();
    let article = ManifestArticle {
        title: plan.title,
        tags: plan.tags,
        summary: plan.summary,
        source: plan.source,
        url,
        category,
        subcategory,
        slug: plan.slug,
        created_at: dates.created_at,
        updated_at: dates.updated_at,
    };
    RenderedArticle { output_dir, html, article }
}

/// Joining a list is joining its first `m` items, the separator, and the rest.
proof fn lemma_join_split(t: Seq<Seq<char>>, m: int, sep: Seq<char>)
    requires
        1 <= m < t.len(),
    ensures
        join(t, sep) == join(t.take(m), sep) + sep + join(t.skip(m), sep),
    decreases t.len(),
{
    if m == t.len() - 1 {
        assert(t.take(m) == t.drop_last());
        assert(t.skip(m) == seq![t.last()]);
    } else {
        lemma_join_split(t.drop_last(), m, sep);
        assert(t.drop_last().take(m) == t.take(m));
        let rest = t.skip(m);
        assert(rest.drop_last() == t.drop_last().skip(m));
        assert(rest.last() == t.last());
        assert(rest.len() >= 2);
    }
}

/// Each section in an article's breadcrumbs links to a path that the
/// article's URL begins with: going up the breadcrumbs leads to the sections
/// that hold the article.
pub proof fn lemma_section_links_lead_up(sections: Seq<Seq<char>>, slug: Seq<char>, i: int)
    requires
        0 <= i < sections.len(),
    ensures
        article_url(sections, slug).take(
            ("/"@ + join(sections.take(i + 1), "/"@) + "/"@).len() as int,
        ) == "/"@ + join(sections.take(i + 1), "/"@) + "/"@,
{
    let t = sections.push(slug);
    lemma_join_split(t, i + 1, "/"@);
    assert(t.take(i + 1) == sections.take(i + 1));
    let link = "/"@ + join(sections.take(i + 1), "/"@) + "/"@;
    let url = article_url(sections, slug);
    assert(url == link + join(t.skip(i + 1), "/"@) + "/"@);
    assert(url.take(link.len() as int) =~= link);
}

} // verus!
