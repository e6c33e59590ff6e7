//! The archive page: every article, newest first.
use vstd::prelude::*;
use crate::article::{shown_update, ManifestArticle};
use crate::html::{document, escape, escape_html, render_document_html};
use crate::order::{
    chars_less, comes_before, lemma_chars_less_irreflexive, lemma_stable_order_sorted, sort_order,
    stable_order,
};
use crate::page::{created_time, render_tags_block, render_times, tags_block, updated_time};
use crate::text::{chars_of, views};

verus! {

/// The sort key of each article: its creation timestamp.
pub open spec fn creation_keys(articles: Seq<ManifestArticle>) -> Seq<Seq<Seq<char>>> {
    articles.map_values(|a: ManifestArticle| seq![a.created_at@])
}

/// The order of the archive: by creation timestamp, newest first, articles
/// written at the same time in the order they were built.
pub open spec fn archive_order(articles: Seq<ManifestArticle>) -> Seq<int> {
    stable_order(creation_keys(articles), true)
}

/// One entry of the archive list.
pub open spec fn archive_item(a: ManifestArticle) -> Seq<char> {
    "<li class=\"archive-item\"><div><a class=\"archive-link\" href=\""@ + escape(a.url@) + "\">"@
        + escape(a.title@) + "</a>"@ + tags_block(views(a.tags@))
        + "</div><div class=\"archive-date\">"@ + created_time(a.created_at@) + updated_time(
        shown_update(a.created_at@, a.updated_at@),
    ) + "</div></li>"@
}

/// The entries of the listed articles, in the given order.
pub open spec fn archive_items(articles: Seq<ManifestArticle>, order: Seq<int>) -> Seq<char>
    decreases order.len(),
{
    if order.len() == 0 {
        Seq::empty()
    } else {
        archive_items(articles, order.drop_last()) + archive_item(articles[order.last()])
    }
}

/// The list of the archive, or a note that there are no articles.
pub open spec fn archive_list(articles: Seq<ManifestArticle>) -> Seq<char> {
    if articles.len() == 0 {
        "<p class=\"archive-empty\">No articles yet.</p>"@
    } else {
        "<ul class=\"archive-list\">"@ + archive_items(articles, archive_order(articles))
            + "</ul>"@
    }
}

/// The archive page.
pub open spec fn archive_page(articles: Seq<ManifestArticle>) -> Seq<char> {
    document(
        "Archive"@,
        "<main><section class=\"archive-section\"><h1 class=\"archive-title\">Archive</h1>"@
            + archive_list(articles) + "</section></main>"@,
    )
}

/// The archive lists every article once, newest first: no article stands
/// before one created later, and articles created at the same time keep the
/// order in which they were built.
pub proof fn lemma_archive_newest_first(articles: Seq<ManifestArticle>)
    ensures
        ({
            let o = archive_order(articles);
            &&& o.len() == articles.len()
            &&& o.no_duplicates()
            &&& forall|i: int| 0 <= i < o.len() ==> 0 <= #[trigger] o[i] < articles.len()
            &&& forall|i: int, j: int|
                0 <= i < j < o.len() ==> !chars_less(
                    articles[#[trigger] o[i]].created_at@,
                    articles[#[trigger] o[j]].created_at@,
                )
            &&& forall|i: int, j: int|
                0 <= i < j < o.len() && articles[#[trigger] o[i]].created_at@
                    == articles[#[trigger] o[j]].created_at@ ==> o[i] < o[j]
        }),
{
    let keys = creation_keys(articles);
    lemma_stable_order_sorted(keys, true);
    let o = archive_order(articles);
    assert forall|i: int, j: int| 0 <= i < j < o.len() implies !chars_less(
        articles[#[trigger] o[i]].created_at@,
        articles[#[trigger] o[j]].created_at@,
    ) by {
        let a = articles[o[i]].created_at@;
        let b = articles[o[j]].created_at@;
        assert(keys[o[i]] == seq![a]);
        assert(keys[o[j]] == seq![b]);
        assert(!comes_before(keys[o[j]], keys[o[i]], true));
        assert(seq![a].drop_first() == Seq::<Seq<char>>::empty());
        assert(seq![b].drop_first() == Seq::<Seq<char>>::empty());
        if a == b {
            lemma_chars_less_irreflexive(a);
        }
    }
    assert forall|i: int, j: int|
        0 <= i < j < o.len() && articles[#[trigger] o[i]].created_at@
            == articles[#[trigger] o[j]].created_at@ implies o[i] < o[j] by {
        assert(keys[o[i]] == seq![articles[o[i]].created_at@]);
        assert(keys[o[j]] == seq![articles[o[j]].created_at@]);
    }
}

/// `o` lists every article once, no article before one created later, and
/// articles created at the same time in the order they were built.
pub open spec fn listed_newest_first(articles: Seq<ManifestArticle>, o: Seq<int>) -> bool {
    &&& o.len() == articles.len()
    &&& o.no_duplicates()
    &&& forall|i: int| 0 <= i < o.len() ==> 0 <= #[trigger] o[i] < articles.len()
    &&& forall|i: int, j: int|
        0 <= i < j < o.len() ==> !chars_less(
            articles[#[trigger] o[i]].created_at@,
            articles[#[trigger] o[j]].created_at@,
        )
    &&& forall|i: int, j: int|
        0 <= i < j < o.len() && articles[#[trigger] o[i]].created_at@
            == articles[#[trigger] o[j]].created_at@ ==> o[i] < o[j]
}

/// The archive page is the shared template around the archive heading and
/// either a note that there are no articles, or one entry per article,
/// listed newest first by creation timestamp (ties in build order).
pub proof fn lemma_archive_page_lists_newest_first(articles: Seq<ManifestArticle>)
    ensures
        articles.len() == 0 ==> archive_page(articles) == document(
            "Archive"@,
            "<main><section class=\"archive-section\"><h1 class=\"archive-title\">Archive</h1>"@
                + "<p class=\"archive-empty\">No articles yet.</p>"@ + "</section></main>"@,
        ),
        articles.len() > 0 ==> exists|o: Seq<int>|
            listed_newest_first(articles, o) && archive_page(articles) == document(
                "Archive"@,
                "<main><section class=\"archive-section\"><h1 class=\"archive-title\">Archive</h1>"@
                    + "<ul class=\"archive-list\">"@ + #[trigger] archive_items(articles, o)
                    + "</ul>"@ + "</section></main>"@,
            ),
{
    lemma_archive_newest_first(articles);
    let o = archive_order(articles);
    assert(listed_newest_first(articles, o));
    if articles.len() > 0 {
        assert(archive_page(articles) == document(
            "Archive"@,
            "<main><section class=\"archive-section\"><h1 class=\"archive-title\">Archive</h1>"@
                + "<ul class=\"archive-list\">"@ + archive_items(articles, o) + "</ul>"@
                + "</section></main>"@,
        ));
    }
}

fn render_archive_item(a: &ManifestArticle) -> (r: String)
    ensures
        r@ == archive_item(*a),
{
    let mut r = String::from_str("<li class=\"archive-item\"><div><a class=\"archive-link\" href=\"");
    let url = escape_html(a.url.as_str());
    r.append(url.as_str());
    r.append("\">");
    let title = escape_html(a.title.as_str());
    r.append(title.as_str());
    r.append("</a>");
    let tags = render_tags_block(&a.tags);
    r.append(tags.as_str());
    r.append("</div><div class=\"archive-date\">");
    let updated: Option<&str> = if a.created_at != a.updated_at {
        Some(a.updated_at.as_str())
    } else {
        None
    };
    let times = render_times(a.created_at.as_str(), updated);
    r.append(times.as_str());
    r.append("</div></li>");
    r
}

/// Renders the archive page: every article, newest first by creation
/// timestamp, with its link, tags and dates.
pub fn render_archive_html(articles: &Vec<ManifestArticle>) -> (r: String)
    ensures
        r@ == archive_page(articles@),
{
    let mut list = String::new();
    if articles.len() == 0 {
        list.append("<p class=\"archive-empty\">No articles yet.</p>");
    } else {
        let mut keys: Vec<Vec<Vec<char>>> = Vec::new();
        let mut i: usize = 0;
        while i < articles.len()
            invariant
                i <= articles@.len(),
                keys@.len() == i,
                forall|j: int|
                    0 <= j < i ==> crate::order::char_views(#[trigger] keys@[j]@) == seq![
                        articles@[j].created_at@,
                    ],
            decreases articles@.len() - i,
        {
            let mut key: Vec<Vec<char>> = Vec::new();
            key.push(chars_of(articles[i].created_at.as_str()));
            assert(crate::order::char_views(key@) =~= seq![articles@[i as int].created_at@]);
            keys.push(key);
            i = i + 1;
        }
        assert(keys@.map_values(|k: Vec<Vec<char>>| crate::order::char_views(k@))
            =~= creation_keys(articles@));
        let order = sort_order(&keys, true);
        let ghost o = order@.map_values(|j: usize| j as int);
        proof {
            crate::order::lemma_stable_order_sorted(creation_keys(articles@), true);
        }
        list.append("<ul class=\"archive-list\">");
        let mut k: usize = 0;
        while k < order.len()
            invariant
                k <= order@.len(),
                o == order@.map_values(|j: usize| j as int),
                o == archive_order(articles@),
                o.len() == articles@.len(),
                forall|q: int| 0 <= q < o.len() ==> 0 <= #[trigger] o[q] < articles@.len(),
                list@ == "<ul class=\"archive-list\">"@ + archive_items(articles@, o.take(k as int)),
            decreases order@.len() - k,
        {
            let idx = order[k];
            assert(o[k as int] == idx as int);
            let item = render_archive_item(&articles[idx]);
            list.append(item.as_str());
            assert(o.take(k + 1).drop_last() == o.take(k as int));
            k = k + 1;
        }
        assert(o.take(o.len() as int) == o);
        list.append("</ul>");
    }
    let mut body = String::from_str(
        "<main><section class=\"archive-section\"><h1 class=\"archive-title\">Archive</h1>",
    );
    body.append(list.as_str());
    body.append("</section></main>");
    render_document_html("Archive", body.as_str())
}

} // verus!
