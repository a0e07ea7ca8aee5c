//! Laws of the store: how the operations compose, stated over the model
//! and proved once for every input.

use vstd::prelude::*;

use crate::store::ArticleM;
use crate::store::CommentM;
use crate::store::MediaM;
use crate::store::StoreM;
use crate::store::arts_without;
use crate::store::article_of;
use crate::store::bumped;
use crate::store::comment_effect;
use crate::store::comments_for;
use crate::store::comments_without_article;
use crate::store::create_effect;
use crate::store::delete_effect;
use crate::store::has_article;
use crate::store::lemma_arts_without_membership;
use crate::store::media_paths;
use crate::store::summary_of;
use crate::store::media_refs_for;
use crate::store::media_without;
use crate::store::replace_media_effect;
use crate::store::update_effect;
use crate::workflow::save_effect;

verus! {

/// An article that nothing references has no media paths.
pub proof fn lemma_media_paths_absent(ms: Seq<MediaM>, id: u64)
    requires
        forall|i: int| 0 <= i < ms.len() ==> (#[trigger] ms[i]).article_id != id,
    ensures
        media_paths(ms, id) =~= Seq::<Seq<char>>::empty(),
    decreases ms.len(),
{
    if ms.len() > 0 {
        assert forall|i: int|
            0 <= i < ms.drop_last().len() implies (#[trigger] ms.drop_last()[i]).article_id
            != id by {
            assert(ms[i].article_id != id);
        }
        lemma_media_paths_absent(ms.drop_last(), id);
    }
}

/// Appending the references of a fresh article yields exactly its paths.
pub proof fn lemma_media_paths_create(ms: Seq<MediaM>, paths: Seq<Seq<char>>, id: u64)
    requires
        forall|i: int| 0 <= i < ms.len() ==> (#[trigger] ms[i]).article_id != id,
    ensures
        media_paths(ms + media_refs_for(id, paths), id) =~= paths,
    decreases paths.len(),
{
    if paths.len() == 0 {
        assert(ms + media_refs_for(id, paths) =~= ms);
        lemma_media_paths_absent(ms, id);
    } else {
        lemma_media_paths_create(ms, paths.drop_last(), id);
        let whole = ms + media_refs_for(id, paths);
        assert(whole.drop_last() =~= ms + media_refs_for(id, paths.drop_last()));
        assert(whole.last() == MediaM { article_id: id, path: paths.last() });
        assert(media_paths(whole, id) =~= paths);
    }
}

/// Under pairwise-distinct ids, any position holding an id resolves the
/// lookup to that position's article.
pub proof fn lemma_article_of_at(m: StoreM, i: int)
    requires
        forall|p: int, q: int|
            0 <= p < q < m.articles.len() ==> m.articles[p].id != m.articles[q].id,
        0 <= i < m.articles.len(),
    ensures
        has_article(m, m.articles[i].id),
        article_of(m, m.articles[i].id) == m.articles[i],
{
    let id = m.articles[i].id;
    assert(has_article(m, id));
    let j = choose|j: int| 0 <= j < m.articles.len() && m.articles[j].id == id;
    if j < i {
        assert(m.articles[j].id != m.articles[i].id);
    } else if i < j {
        assert(m.articles[i].id != m.articles[j].id);
    }
}

/// Law: creating a valid article and then reading that id back yields the
/// same title and body, the recency marker it was stamped with, and the
/// exact media set that was submitted. The listing's own contract then
/// places the row by that marker.
pub proof fn lemma_create_then_get(
    m: StoreM,
    title: Seq<char>,
    body: Seq<char>,
    paths: Seq<Seq<char>>,
    now: i64,
)
    requires
        m.wf(),
        m.next_article_id < u64::MAX,
        title.len() > 0,
        body.len() > 0,
        paths.len() > 0,
    ensures
        has_article(create_effect(m, title, body, paths, now), m.next_article_id),
        article_of(create_effect(m, title, body, paths, now), m.next_article_id) == (ArticleM {
            id: m.next_article_id,
            title,
            body,
            bump_time: now,
        }),
        media_paths(create_effect(m, title, body, paths, now).media, m.next_article_id) =~= paths,
{
    let m1 = create_effect(m, title, body, paths, now);
    let n = m.articles.len() as int;
    assert(m1.articles[n].id == m.next_article_id);
    assert forall|p: int, q: int|
        0 <= p < q < m1.articles.len() implies m1.articles[p].id != m1.articles[q].id by {
        if q < n {
            assert(m.articles[p].id != m.articles[q].id);
        } else {
            assert(m.articles[p].id < m.next_article_id);
        }
    }
    lemma_article_of_at(m1, n);
    assert forall|i: int|
        0 <= i < m.media.len() implies (#[trigger] m.media[i]).article_id
        != m.next_article_id by {
        assert(has_article(m, m.media[i].article_id));
        let p = choose|p: int|
            0 <= p < m.articles.len() && m.articles[p].id == m.media[i].article_id;
        assert(m.articles[p].id < m.next_article_id);
    }
    lemma_media_paths_create(m.media, paths, m.next_article_id);
}

/// Law: every existing article contributes its row to the listing's
/// content; the listing's own contract orders the rows by recency.
pub proof fn lemma_listing_includes(m: StoreM, id: u64)
    requires
        m.wf(),
        has_article(m, id),
    ensures
        m.articles.map_values(|a: ArticleM| summary_of(a)).to_multiset().count(
            summary_of(article_of(m, id)),
        ) >= 1,
{
    broadcast use vstd::seq_lib::group_to_multiset_ensures;

    let i = choose|i: int| 0 <= i < m.articles.len() && m.articles[i].id == id;
    lemma_article_of_at(m, i);
    let rows = m.articles.map_values(|a: ArticleM| summary_of(a));
    assert(rows[i] == summary_of(article_of(m, id)));
    assert(rows.contains(summary_of(article_of(m, id))));
}

/// Law: inserting a comment appends it at the end of the article's
/// comment list, in insertion order, and the parent's recency marker
/// never decreases.
pub proof fn lemma_comment_bump(m: StoreM, article_id: u64, text: Seq<char>, now: i64)
    requires
        m.wf(),
        has_article(m, article_id),
        m.next_comment_id < u64::MAX,
    ensures
        article_of(comment_effect(m, article_id, text, now), article_id).bump_time >= article_of(
            m,
            article_id,
        ).bump_time,
        article_of(comment_effect(m, article_id, text, now), article_id).title == article_of(
            m,
            article_id,
        ).title,
        article_of(comment_effect(m, article_id, text, now), article_id).body == article_of(
            m,
            article_id,
        ).body,
        comments_for(comment_effect(m, article_id, text, now).comments, article_id)
            =~= comments_for(m.comments, article_id).push(
            CommentM { id: m.next_comment_id, article_id, text },
        ),
{
    let m1 = comment_effect(m, article_id, text, now);
    let i = choose|i: int| 0 <= i < m.articles.len() && m.articles[i].id == article_id;
    lemma_article_of_at(m, i);
    assert forall|p: int, q: int|
        0 <= p < q < m1.articles.len() implies m1.articles[p].id != m1.articles[q].id by {
        assert(m.articles[p].id != m.articles[q].id);
    }
    assert(m1.articles[i].id == article_id);
    lemma_article_of_at(m1, i);
    assert(m1.comments.drop_last() =~= m.comments);
    assert(m1.comments.last() == CommentM { id: m.next_comment_id, article_id, text });
}

/// After the cascade, the removed article has no media paths left.
pub proof fn lemma_media_gone(ms: Seq<MediaM>, id: u64)
    ensures
        media_paths(media_without(ms, id), id) =~= Seq::<Seq<char>>::empty(),
    decreases ms.len(),
{
    if ms.len() > 0 {
        lemma_media_gone(ms.drop_last(), id);
        if ms.last().article_id != id {
            let r = media_without(ms.drop_last(), id).push(ms.last());
            assert(r.drop_last() =~= media_without(ms.drop_last(), id));
            assert(r.last() == ms.last());
        }
    }
}

/// After the cascade, the removed article has no comments left.
pub proof fn lemma_comments_gone(cs: Seq<CommentM>, id: u64)
    ensures
        comments_for(comments_without_article(cs, id), id) =~= Seq::<CommentM>::empty(),
    decreases cs.len(),
{
    if cs.len() > 0 {
        lemma_comments_gone(cs.drop_last(), id);
        if cs.last().article_id != id {
            let r = comments_without_article(cs.drop_last(), id).push(cs.last());
            assert(r.drop_last() =~= comments_without_article(cs.drop_last(), id));
            assert(r.last() == cs.last());
        }
    }
}

/// Law: after deleting an article, reading that id fails, and every prior
/// media reference and comment of the article is gone with it.
pub proof fn lemma_delete_then_get(m: StoreM, id: u64)
    ensures
        !has_article(delete_effect(m, id), id),
        media_paths(delete_effect(m, id).media, id) =~= Seq::<Seq<char>>::empty(),
        comments_for(delete_effect(m, id).comments, id) =~= Seq::<CommentM>::empty(),
{
    let m1 = delete_effect(m, id);
    lemma_arts_without_membership(m.articles, id);
    if has_article(m1, id) {
        let i = choose|i: int| 0 <= i < m1.articles.len() && m1.articles[i].id == id;
        assert(arts_without(m.articles, id).contains(m1.articles[i]));
    }
    lemma_media_gone(m.media, id);
    lemma_comments_gone(m.comments, id);
}

/// The updated article carries the new fields and the bumped marker.
pub proof fn lemma_update_article_of(
    m: StoreM,
    id: u64,
    title: Seq<char>,
    body: Seq<char>,
    now: i64,
)
    requires
        m.wf(),
        has_article(m, id),
    ensures
        article_of(update_effect(m, id, title, body, now), id) == (ArticleM {
            id,
            title,
            body,
            bump_time: bumped(article_of(m, id).bump_time, now),
        }),
        article_of(update_effect(m, id, title, body, now), id).bump_time >= article_of(
            m,
            id,
        ).bump_time,
{
    let m1 = update_effect(m, id, title, body, now);
    let i = choose|i: int| 0 <= i < m.articles.len() && m.articles[i].id == id;
    lemma_article_of_at(m, i);
    assert forall|p: int, q: int|
        0 <= p < q < m1.articles.len() implies m1.articles[p].id != m1.articles[q].id by {
        assert(m.articles[p].id != m.articles[q].id);
    }
    assert(m1.articles[i].id == id);
    lemma_article_of_at(m1, i);
}

/// Law: a save without a new media file shows the new title and body
/// afterward, never lowers the recency marker, and leaves the media set
/// of every article untouched.
pub proof fn lemma_edit_save(m: StoreM, id: u64, title: Seq<char>, body: Seq<char>, now: i64)
    requires
        m.wf(),
        has_article(m, id),
    ensures
        article_of(save_effect(m, id, title, body, None, now), id).title == title,
        article_of(save_effect(m, id, title, body, None, now), id).body == body,
        article_of(save_effect(m, id, title, body, None, now), id).bump_time >= article_of(
            m,
            id,
        ).bump_time,
        save_effect(m, id, title, body, None, now).media == m.media,
{
    lemma_update_article_of(m, id, title, body, now);
}

/// Law: replacing an article's media leaves exactly one reference,
/// pointing at the new file, with every old reference gone.
pub proof fn lemma_replace_media_exact(m: StoreM, id: u64, path: Seq<char>)
    ensures
        media_paths(replace_media_effect(m, id, path).media, id) =~= seq![path],
{
    lemma_media_gone(m.media, id);
    let r = media_without(m.media, id).push(MediaM { article_id: id, path });
    assert(r.drop_last() =~= media_without(m.media, id));
    assert(r.last() == MediaM { article_id: id, path });
}

/// Law: a save with a new media file shows the new fields and exactly one
/// media reference afterward, pointing at the new file.
pub proof fn lemma_edit_save_new_media(
    m: StoreM,
    id: u64,
    title: Seq<char>,
    body: Seq<char>,
    path: Seq<char>,
    now: i64,
)
    requires
        m.wf(),
        has_article(m, id),
    ensures
        article_of(save_effect(m, id, title, body, Some(path), now), id).title == title,
        article_of(save_effect(m, id, title, body, Some(path), now), id).body == body,
        article_of(save_effect(m, id, title, body, Some(path), now), id).bump_time >= article_of(
            m,
            id,
        ).bump_time,
        media_paths(save_effect(m, id, title, body, Some(path), now).media, id) =~= seq![path],
{
    lemma_update_article_of(m, id, title, body, now);
    let u = update_effect(m, id, title, body, now);
    lemma_replace_media_exact(u, id, path);
    assert(save_effect(m, id, title, body, Some(path), now).articles == u.articles);
}

} // verus!
