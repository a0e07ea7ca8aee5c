//! The record store: articles, their media references, and comments, with
//! the mutation rules that keep them a consistent unit.
//!
//! The store is an in-memory repository. Its mathematical model is
//! [`StoreM`], a ghost mirror over sequences; every operation's contract
//! states the new model as a function of the old one, so the multi-row
//! changes (create-with-media, comment-insert-plus-bump, cascading delete)
//! are each one logical unit.

use vstd::prelude::*;

use crate::errors::AppError;

verus! {

/// A published unit of content. `bump_time` is the sole ordering key of the
/// listing and never decreases.
pub struct Article {
    pub id: u64,
    pub title: String,
    pub body: String,
    pub bump_time: i64,
}

/// A pointer from an article to one stored media file.
pub struct MediaRef {
    pub article_id: u64,
    pub path: String,
}

/// A comment, bound to exactly one article.
pub struct Comment {
    pub id: u64,
    pub article_id: u64,
    pub text: String,
}

/// Ghost mirror of an [`Article`].
#[verifier::ext_equal]
pub ghost struct ArticleM {
    pub id: u64,
    pub title: Seq<char>,
    pub body: Seq<char>,
    pub bump_time: i64,
}

/// Ghost mirror of a [`MediaRef`].
#[verifier::ext_equal]
pub ghost struct MediaM {
    pub article_id: u64,
    pub path: Seq<char>,
}

/// Ghost mirror of a [`Comment`].
#[verifier::ext_equal]
pub ghost struct CommentM {
    pub id: u64,
    pub article_id: u64,
    pub text: Seq<char>,
}

/// The model of the whole store.
#[verifier::ext_equal]
pub ghost struct StoreM {
    pub articles: Seq<ArticleM>,
    pub media: Seq<MediaM>,
    pub comments: Seq<CommentM>,
    pub next_article_id: u64,
    pub next_comment_id: u64,
}

impl View for Article {
    type V = ArticleM;

    open spec fn view(&self) -> ArticleM {
        ArticleM { id: self.id, title: self.title@, body: self.body@, bump_time: self.bump_time }
    }
}

impl View for MediaRef {
    type V = MediaM;

    open spec fn view(&self) -> MediaM {
        MediaM { article_id: self.article_id, path: self.path@ }
    }
}

impl View for Comment {
    type V = CommentM;

    open spec fn view(&self) -> CommentM {
        CommentM { id: self.id, article_id: self.article_id, text: self.text@ }
    }
}

/// The repository owning every record.
pub struct Store {
    pub articles: Vec<Article>,
    pub media: Vec<MediaRef>,
    pub comments: Vec<Comment>,
    pub next_article_id: u64,
    pub next_comment_id: u64,
}

impl View for Store {
    type V = StoreM;

    open spec fn view(&self) -> StoreM {
        StoreM {
            articles: self.articles@.map_values(|a: Article| a@),
            media: self.media@.map_values(|m: MediaRef| m@),
            comments: self.comments@.map_values(|c: Comment| c@),
            next_article_id: self.next_article_id,
            next_comment_id: self.next_comment_id,
        }
    }
}

/// Whether an article with this id exists.
pub open spec fn has_article(m: StoreM, id: u64) -> bool {
    exists|i: int| 0 <= i < m.articles.len() && m.articles[i].id == id
}

/// The article with this id (meaningful only when `has_article` holds and
/// ids are unique, as `wf` guarantees).
pub open spec fn article_of(m: StoreM, id: u64) -> ArticleM {
    m.articles[choose|i: int| 0 <= i < m.articles.len() && m.articles[i].id == id]
}

/// Whether a comment with this id exists.
pub open spec fn has_comment(m: StoreM, id: u64) -> bool {
    exists|i: int| 0 <= i < m.comments.len() && m.comments[i].id == id
}

/// The comment with this id (meaningful only when `has_comment` holds).
pub open spec fn comment_of(m: StoreM, id: u64) -> CommentM {
    m.comments[choose|i: int| 0 <= i < m.comments.len() && m.comments[i].id == id]
}

/// The media paths attached to an article, in insertion order.
pub open spec fn media_paths(ms: Seq<MediaM>, id: u64) -> Seq<Seq<char>>
    decreases ms.len(),
{
    if ms.len() == 0 {
        Seq::empty()
    } else if ms.last().article_id == id {
        media_paths(ms.drop_last(), id).push(ms.last().path)
    } else {
        media_paths(ms.drop_last(), id)
    }
}

/// The comments bound to an article, in insertion order.
pub open spec fn comments_for(cs: Seq<CommentM>, id: u64) -> Seq<CommentM>
    decreases cs.len(),
{
    if cs.len() == 0 {
        Seq::empty()
    } else if cs.last().article_id == id {
        comments_for(cs.drop_last(), id).push(cs.last())
    } else {
        comments_for(cs.drop_last(), id)
    }
}

/// The articles left after removing the one with this id.
pub open spec fn arts_without(arts: Seq<ArticleM>, id: u64) -> Seq<ArticleM>
    decreases arts.len(),
{
    if arts.len() == 0 {
        Seq::empty()
    } else if arts.last().id == id {
        arts_without(arts.drop_last(), id)
    } else {
        arts_without(arts.drop_last(), id).push(arts.last())
    }
}

/// The media references left after removing those of this article.
pub open spec fn media_without(ms: Seq<MediaM>, id: u64) -> Seq<MediaM>
    decreases ms.len(),
{
    if ms.len() == 0 {
        Seq::empty()
    } else if ms.last().article_id == id {
        media_without(ms.drop_last(), id)
    } else {
        media_without(ms.drop_last(), id).push(ms.last())
    }
}

/// The comments left after removing those of this article.
pub open spec fn comments_without_article(cs: Seq<CommentM>, id: u64) -> Seq<CommentM>
    decreases cs.len(),
{
    if cs.len() == 0 {
        Seq::empty()
    } else if cs.last().article_id == id {
        comments_without_article(cs.drop_last(), id)
    } else {
        comments_without_article(cs.drop_last(), id).push(cs.last())
    }
}

/// The comments left after removing the one with this comment id.
pub open spec fn comments_without(cs: Seq<CommentM>, comment_id: u64) -> Seq<CommentM>
    decreases cs.len(),
{
    if cs.len() == 0 {
        Seq::empty()
    } else if cs.last().id == comment_id {
        comments_without(cs.drop_last(), comment_id)
    } else {
        comments_without(cs.drop_last(), comment_id).push(cs.last())
    }
}

/// The larger of a recency marker and the current time: bumping never
/// moves an article back in time, even if the clock does.
pub open spec fn bumped(b: i64, now: i64) -> i64 {
    if now > b {
        now
    } else {
        b
    }
}

impl StoreM {
    /// Well-formedness: ids unique and below the next free id, required
    /// texts non-empty, and no media reference or comment without its
    /// parent article.
    pub open spec fn wf(self) -> bool {
        &&& (forall|i: int, j: int|
            0 <= i < j < self.articles.len() ==> self.articles[i].id != self.articles[j].id)
        &&& (forall|i: int|
            0 <= i < self.articles.len() ==> (#[trigger] self.articles[i]).id
                < self.next_article_id && self.articles[i].title.len() > 0
                && self.articles[i].body.len() > 0)
        &&& (forall|i: int, j: int|
            0 <= i < j < self.comments.len() ==> self.comments[i].id != self.comments[j].id)
        &&& (forall|i: int|
            0 <= i < self.comments.len() ==> (#[trigger] self.comments[i]).id
                < self.next_comment_id && self.comments[i].text.len() > 0 && has_article(
                self,
                self.comments[i].article_id,
            ))
        &&& (forall|i: int|
            0 <= i < self.media.len() ==> has_article(self, (#[trigger] self.media[i]).article_id))
    }
}

/// The views of a sequence of stored path strings.
pub open spec fn paths_view(v: Seq<String>) -> Seq<Seq<char>> {
    v.map_values(|p: String| p@)
}

/// What a successful `create_article` does to the model: one new article
/// with the given recency marker, one media reference per path, and the
/// next article id advanced.
pub open spec fn media_refs_for(id: u64, paths: Seq<Seq<char>>) -> Seq<MediaM> {
    paths.map_values(|p: Seq<char>| MediaM { article_id: id, path: p })
}

pub open spec fn create_effect(
    m: StoreM,
    title: Seq<char>,
    body: Seq<char>,
    paths: Seq<Seq<char>>,
    now: i64,
) -> StoreM {
    StoreM {
        articles: m.articles.push(
            ArticleM { id: m.next_article_id, title, body, bump_time: now },
        ),
        media: m.media + media_refs_for(m.next_article_id, paths),
        next_article_id: (m.next_article_id + 1) as u64,
        ..m
    }
}


/// What a successful `update_article` does to the model: new title and
/// body, and the recency marker bumped, on the one article with this id.
pub open spec fn update_effect(
    m: StoreM,
    id: u64,
    title: Seq<char>,
    body: Seq<char>,
    now: i64,
) -> StoreM {
    StoreM {
        articles: m.articles.map_values(
            |a: ArticleM|
                if a.id == id {
                    ArticleM { id: a.id, title, body, bump_time: bumped(a.bump_time, now) }
                } else {
                    a
                },
        ),
        ..m
    }
}

/// What a successful `replace_media` does to the model: every media
/// reference of the article removed, exactly one new one appended.
pub open spec fn replace_media_effect(m: StoreM, id: u64, path: Seq<char>) -> StoreM {
    StoreM { media: media_without(m.media, id).push(MediaM { article_id: id, path }), ..m }
}

/// What a successful `create_comment` does to the model: one new comment
/// bound to the article, whose recency marker is bumped in the same step.
pub open spec fn comment_effect(m: StoreM, article_id: u64, text: Seq<char>, now: i64) -> StoreM {
    StoreM {
        articles: m.articles.map_values(
            |a: ArticleM|
                if a.id == article_id {
                    ArticleM {
                        id: a.id,
                        title: a.title,
                        body: a.body,
                        bump_time: bumped(a.bump_time, now),
                    }
                } else {
                    a
                },
        ),
        comments: m.comments.push(
            CommentM { id: m.next_comment_id, article_id, text: text },
        ),
        next_comment_id: (m.next_comment_id + 1) as u64,
        ..m
    }
}

/// Articles whose ids agree index by index exist for the same ids.
pub proof fn lemma_same_ids_has_article(m1: StoreM, m2: StoreM)
    requires
        m1.articles.len() == m2.articles.len(),
        forall|i: int| 0 <= i < m1.articles.len() ==> m1.articles[i].id == m2.articles[i].id,
    ensures
        forall|id: u64| has_article(m1, id) == has_article(m2, id),
{
    assert forall|id: u64| has_article(m1, id) == has_article(m2, id) by {
        if has_article(m1, id) {
            let i = choose|i: int| 0 <= i < m1.articles.len() && m1.articles[i].id == id;
            assert(m2.articles[i].id == id);
        }
        if has_article(m2, id) {
            let i = choose|i: int| 0 <= i < m2.articles.len() && m2.articles[i].id == id;
            assert(m1.articles[i].id == id);
        }
    }
}

/// What `delete_article` does to the model: the article, its media
/// references, and its comments all removed together.
pub open spec fn delete_effect(m: StoreM, id: u64) -> StoreM {
    StoreM {
        articles: arts_without(m.articles, id),
        media: media_without(m.media, id),
        comments: comments_without_article(m.comments, id),
        ..m
    }
}

/// What a successful `delete_comment` does to the model.
pub open spec fn comment_delete_effect(m: StoreM, comment_id: u64) -> StoreM {
    StoreM { comments: comments_without(m.comments, comment_id), ..m }
}

/// No two comments share an id.
pub open spec fn unique_comment_ids(cs: Seq<CommentM>) -> bool {
    forall|i: int, j: int| 0 <= i < j < cs.len() ==> cs[i].id != cs[j].id
}

/// What `media_without` keeps: exactly the references of other articles.
pub proof fn lemma_media_without_membership(ms: Seq<MediaM>, id: u64)
    ensures
        forall|x: MediaM| #[trigger] media_without(ms, id).contains(x) ==> ms.contains(x)
            && x.article_id != id,
        forall|x: MediaM| ms.contains(x) && x.article_id != id ==> media_without(
            ms,
            id,
        ).contains(x),
    decreases ms.len(),
{
    if ms.len() > 0 {
        lemma_media_without_membership(ms.drop_last(), id);
        assert forall|x: MediaM| #[trigger] media_without(ms, id).contains(x) implies ms.contains(
            x,
        ) && x.article_id != id by {
            if ms.last().article_id == id {
                assert(media_without(ms.drop_last(), id).contains(x));
            } else {
                let r = media_without(ms.drop_last(), id).push(ms.last());
                let w = choose|w: int| 0 <= w < r.len() && r[w] == x;
                if w < r.len() - 1 {
                    assert(media_without(ms.drop_last(), id).contains(x));
                } else {
                    assert(x == ms.last());
                    assert(ms[ms.len() - 1] == x);
                }
            }
            if ms.drop_last().contains(x) {
                let w = choose|w: int| 0 <= w < ms.drop_last().len() && ms.drop_last()[w] == x;
                assert(ms[w] == x);
            }
        }
        assert forall|x: MediaM| ms.contains(x) && x.article_id != id implies media_without(
            ms,
            id,
        ).contains(x) by {
            let w = choose|w: int| 0 <= w < ms.len() && ms[w] == x;
            if w < ms.len() - 1 {
                assert(ms.drop_last()[w] == x);
                assert(ms.drop_last().contains(x));
                let r0 = media_without(ms.drop_last(), id);
                let v = choose|v: int| 0 <= v < r0.len() && r0[v] == x;
                if ms.last().article_id == id {
                } else {
                    assert(media_without(ms, id)[v] == x);
                }
            } else {
                assert(x == ms.last());
                let r = media_without(ms.drop_last(), id).push(ms.last());
                assert(r[r.len() - 1] == x);
            }
        }
    }
}

/// What `arts_without` keeps: exactly the articles with another id.
pub proof fn lemma_arts_without_membership(arts: Seq<ArticleM>, id: u64)
    ensures
        forall|x: ArticleM| #[trigger] arts_without(arts, id).contains(x) ==> arts.contains(x)
            && x.id != id,
        forall|x: ArticleM| arts.contains(x) && x.id != id ==> arts_without(arts, id).contains(x),
    decreases arts.len(),
{
    if arts.len() > 0 {
        lemma_arts_without_membership(arts.drop_last(), id);
        assert forall|x: ArticleM| #[trigger] arts_without(arts, id).contains(x) implies
            arts.contains(x) && x.id != id by {
            if arts.last().id == id {
                assert(arts_without(arts.drop_last(), id).contains(x));
            } else {
                let r = arts_without(arts.drop_last(), id).push(arts.last());
                let w = choose|w: int| 0 <= w < r.len() && r[w] == x;
                if w < r.len() - 1 {
                    assert(arts_without(arts.drop_last(), id).contains(x));
                } else {
                    assert(arts[arts.len() - 1] == x);
                }
            }
            if arts.drop_last().contains(x) {
                let w = choose|w: int|
                    0 <= w < arts.drop_last().len() && arts.drop_last()[w] == x;
                assert(arts[w] == x);
            }
        }
        assert forall|x: ArticleM| arts.contains(x) && x.id != id implies arts_without(
            arts,
            id,
        ).contains(x) by {
            let w = choose|w: int| 0 <= w < arts.len() && arts[w] == x;
            if w < arts.len() - 1 {
                assert(arts.drop_last()[w] == x);
                assert(arts.drop_last().contains(x));
                let r0 = arts_without(arts.drop_last(), id);
                let v = choose|v: int| 0 <= v < r0.len() && r0[v] == x;
                if arts.last().id == id {
                } else {
                    assert(arts_without(arts, id)[v] == x);
                }
            } else {
                assert(x == arts.last());
                let r = arts_without(arts.drop_last(), id).push(arts.last());
                assert(r[r.len() - 1] == x);
            }
        }
    }
}

/// What `comments_without_article` keeps: exactly the comments of other
/// articles.
pub proof fn lemma_comments_without_article_membership(cs: Seq<CommentM>, id: u64)
    ensures
        forall|x: CommentM| #[trigger] comments_without_article(cs, id).contains(x)
            ==> cs.contains(x) && x.article_id != id,
        forall|x: CommentM| cs.contains(x) && x.article_id != id ==> comments_without_article(
            cs,
            id,
        ).contains(x),
    decreases cs.len(),
{
    if cs.len() > 0 {
        lemma_comments_without_article_membership(cs.drop_last(), id);
        assert forall|x: CommentM| #[trigger] comments_without_article(cs, id).contains(x) implies
            cs.contains(x) && x.article_id != id by {
            if cs.last().article_id == id {
                assert(comments_without_article(cs.drop_last(), id).contains(x));
            } else {
                let r = comments_without_article(cs.drop_last(), id).push(cs.last());
                let w = choose|w: int| 0 <= w < r.len() && r[w] == x;
                if w < r.len() - 1 {
                    assert(comments_without_article(cs.drop_last(), id).contains(x));
                } else {
                    assert(cs[cs.len() - 1] == x);
                }
            }
            if cs.drop_last().contains(x) {
                let w = choose|w: int| 0 <= w < cs.drop_last().len() && cs.drop_last()[w] == x;
                assert(cs[w] == x);
            }
        }
        assert forall|x: CommentM| cs.contains(x) && x.article_id != id implies
            comments_without_article(cs, id).contains(x) by {
            let w = choose|w: int| 0 <= w < cs.len() && cs[w] == x;
            if w < cs.len() - 1 {
                assert(cs.drop_last()[w] == x);
                assert(cs.drop_last().contains(x));
                let r0 = comments_without_article(cs.drop_last(), id);
                let v = choose|v: int| 0 <= v < r0.len() && r0[v] == x;
                if cs.last().article_id == id {
                } else {
                    assert(comments_without_article(cs, id)[v] == x);
                }
            } else {
                assert(x == cs.last());
                let r = comments_without_article(cs.drop_last(), id).push(cs.last());
                assert(r[r.len() - 1] == x);
            }
        }
    }
}

/// What `comments_without` keeps: exactly the comments with another id.
pub proof fn lemma_comments_without_membership(cs: Seq<CommentM>, comment_id: u64)
    ensures
        forall|x: CommentM| #[trigger] comments_without(cs, comment_id).contains(x)
            ==> cs.contains(x) && x.id != comment_id,
        forall|x: CommentM| cs.contains(x) && x.id != comment_id ==> comments_without(
            cs,
            comment_id,
        ).contains(x),
    decreases cs.len(),
{
    if cs.len() > 0 {
        lemma_comments_without_membership(cs.drop_last(), comment_id);
        assert forall|x: CommentM| #[trigger] comments_without(cs, comment_id).contains(x) implies
            cs.contains(x) && x.id != comment_id by {
            if cs.last().id == comment_id {
                assert(comments_without(cs.drop_last(), comment_id).contains(x));
            } else {
                let r = comments_without(cs.drop_last(), comment_id).push(cs.last());
                let w = choose|w: int| 0 <= w < r.len() && r[w] == x;
                if w < r.len() - 1 {
                    assert(comments_without(cs.drop_last(), comment_id).contains(x));
                } else {
                    assert(cs[cs.len() - 1] == x);
                }
            }
            if cs.drop_last().contains(x) {
                let w = choose|w: int| 0 <= w < cs.drop_last().len() && cs.drop_last()[w] == x;
                assert(cs[w] == x);
            }
        }
        assert forall|x: CommentM| cs.contains(x) && x.id != comment_id implies comments_without(
            cs,
            comment_id,
        ).contains(x) by {
            let w = choose|w: int| 0 <= w < cs.len() && cs[w] == x;
            if w < cs.len() - 1 {
                assert(cs.drop_last()[w] == x);
                assert(cs.drop_last().contains(x));
                let r0 = comments_without(cs.drop_last(), comment_id);
                let v = choose|v: int| 0 <= v < r0.len() && r0[v] == x;
                if cs.last().id == comment_id {
                } else {
                    assert(comments_without(cs, comment_id)[v] == x);
                }
            } else {
                assert(x == cs.last());
                let r = comments_without(cs.drop_last(), comment_id).push(cs.last());
                assert(r[r.len() - 1] == x);
            }
        }
    }
}

/// Removing an article keeps the remaining comments' ids unique.
pub proof fn lemma_comments_without_unique(cs: Seq<CommentM>, comment_id: u64)
    requires
        unique_comment_ids(cs),
    ensures
        unique_comment_ids(comments_without(cs, comment_id)),
    decreases cs.len(),
{
    if cs.len() > 0 {
        assert forall|i: int, j: int|
            0 <= i < j < cs.drop_last().len() implies cs.drop_last()[i].id
            != cs.drop_last()[j].id by {
            assert(cs[i].id != cs[j].id);
        }
        lemma_comments_without_unique(cs.drop_last(), comment_id);
        if cs.last().id != comment_id {
            lemma_comments_without_membership(cs.drop_last(), comment_id);
            let r0 = comments_without(cs.drop_last(), comment_id);
            let r = r0.push(cs.last());
            assert forall|i: int, j: int| 0 <= i < j < r.len() implies r[i].id != r[j].id by {
                if j == r.len() - 1 {
                    assert(r0.contains(r0[i]));
                    assert(cs.drop_last().contains(r0[i]));
                    let w = choose|w: int|
                        0 <= w < cs.drop_last().len() && cs.drop_last()[w] == r0[i];
                    assert(cs[w] == r0[i]);
                    assert(cs[w].id != cs[cs.len() - 1].id);
                }
            }
        }
    }
}

/// The cascading delete keeps the store well formed: nothing it leaves
/// behind points at the removed article.
pub proof fn lemma_delete_effect_wf(m: StoreM, id: u64)
    requires
        m.wf(),
    ensures
        delete_effect(m, id).wf(),
{
    let m1 = delete_effect(m, id);
    lemma_arts_without_membership(m.articles, id);
    lemma_media_without_membership(m.media, id);
    lemma_comments_without_article_membership(m.comments, id);
    assert forall|i: int, j: int| 0 <= i < j < m1.articles.len() implies m1.articles[i].id
        != m1.articles[j].id by {
        lemma_arts_without_distinct(m.articles, id, i, j);
    }
    assert forall|i: int| 0 <= i < m1.articles.len() implies (#[trigger] m1.articles[i]).id
        < m1.next_article_id && m1.articles[i].title.len() > 0 && m1.articles[i].body.len()
        > 0 by {
        let x = m1.articles[i];
        assert(arts_without(m.articles, id).contains(x));
        let w = choose|w: int| 0 <= w < m.articles.len() && m.articles[w] == x;
    }
    assert forall|i: int, j: int| 0 <= i < j < m1.comments.len() implies m1.comments[i].id
        != m1.comments[j].id by {
        lemma_comments_without_article_distinct(m.comments, id, i, j);
    }
    assert forall|i: int| 0 <= i < m1.comments.len() implies (#[trigger] m1.comments[i]).id
        < m1.next_comment_id && m1.comments[i].text.len() > 0 && has_article(
        m1,
        m1.comments[i].article_id,
    ) by {
        let x = m1.comments[i];
        assert(comments_without_article(m.comments, id).contains(x));
        let w = choose|w: int| 0 <= w < m.comments.len() && m.comments[w] == x;
        let p = choose|p: int| 0 <= p < m.articles.len() && m.articles[p].id == x.article_id;
        assert(m.articles.contains(m.articles[p]));
        assert(arts_without(m.articles, id).contains(m.articles[p]));
        let q = choose|q: int|
            0 <= q < m1.articles.len() && m1.articles[q] == m.articles[p];
        assert(m1.articles[q].id == x.article_id);
    }
    assert forall|i: int| 0 <= i < m1.media.len() implies has_article(
        m1,
        (#[trigger] m1.media[i]).article_id,
    ) by {
        let x = m1.media[i];
        assert(media_without(m.media, id).contains(x));
        let w = choose|w: int| 0 <= w < m.media.len() && m.media[w] == x;
        let p = choose|p: int| 0 <= p < m.articles.len() && m.articles[p].id == x.article_id;
        assert(m.articles.contains(m.articles[p]));
        assert(arts_without(m.articles, id).contains(m.articles[p]));
        let q = choose|q: int|
            0 <= q < m1.articles.len() && m1.articles[q] == m.articles[p];
        assert(m1.articles[q].id == x.article_id);
    }
}

/// Two positions of `arts_without` hold articles with different ids, when
/// the original ids were pairwise distinct.
pub proof fn lemma_arts_without_distinct(arts: Seq<ArticleM>, id: u64, i: int, j: int)
    requires
        forall|p: int, q: int| 0 <= p < q < arts.len() ==> arts[p].id != arts[q].id,
        0 <= i < j < arts_without(arts, id).len(),
    ensures
        arts_without(arts, id)[i].id != arts_without(arts, id)[j].id,
    decreases arts.len(),
{
    if arts.len() > 0 {
        assert forall|p: int, q: int|
            0 <= p < q < arts.drop_last().len() implies arts.drop_last()[p].id
            != arts.drop_last()[q].id by {
            assert(arts[p].id != arts[q].id);
        }
        let r0 = arts_without(arts.drop_last(), id);
        if arts.last().id == id {
            lemma_arts_without_distinct(arts.drop_last(), id, i, j);
        } else {
            if j < r0.len() {
                lemma_arts_without_distinct(arts.drop_last(), id, i, j);
            } else {
                lemma_arts_without_membership(arts.drop_last(), id);
                assert(r0.contains(r0[i]));
                assert(arts.drop_last().contains(r0[i]));
                let w = choose|w: int|
                    0 <= w < arts.drop_last().len() && arts.drop_last()[w] == r0[i];
                assert(arts[w] == r0[i]);
                assert(arts[w].id != arts[arts.len() - 1].id);
            }
        }
    }
}

/// Two positions of `comments_without_article` hold comments with
/// different ids, when the original ids were pairwise distinct.
pub proof fn lemma_comments_without_article_distinct(cs: Seq<CommentM>, id: u64, i: int, j: int)
    requires
        forall|p: int, q: int| 0 <= p < q < cs.len() ==> cs[p].id != cs[q].id,
        0 <= i < j < comments_without_article(cs, id).len(),
    ensures
        comments_without_article(cs, id)[i].id != comments_without_article(cs, id)[j].id,
    decreases cs.len(),
{
    if cs.len() > 0 {
        assert forall|p: int, q: int|
            0 <= p < q < cs.drop_last().len() implies cs.drop_last()[p].id
            != cs.drop_last()[q].id by {
            assert(cs[p].id != cs[q].id);
        }
        let r0 = comments_without_article(cs.drop_last(), id);
        if cs.last().article_id == id {
            lemma_comments_without_article_distinct(cs.drop_last(), id, i, j);
        } else {
            if j < r0.len() {
                lemma_comments_without_article_distinct(cs.drop_last(), id, i, j);
            } else {
                lemma_comments_without_article_membership(cs.drop_last(), id);
                assert(r0.contains(r0[i]));
                assert(cs.drop_last().contains(r0[i]));
                let w = choose|w: int|
                    0 <= w < cs.drop_last().len() && cs.drop_last()[w] == r0[i];
                assert(cs[w] == r0[i]);
                assert(cs[w].id != cs[cs.len() - 1].id);
            }
        }
    }
}

/// Ghost mirror of an [`ArticleSummary`].
#[verifier::ext_equal]
pub ghost struct SummaryM {
    pub id: u64,
    pub title: Seq<char>,
    pub bump_time: i64,
}

/// The listing row an article contributes.
pub open spec fn summary_of(a: ArticleM) -> SummaryM {
    SummaryM { id: a.id, title: a.title, bump_time: a.bump_time }
}

/// Rows ordered by recency, most recently bumped first.
pub open spec fn sorted_desc(s: Seq<ArticleSummary>) -> bool {
    forall|i: int, j: int| 0 <= i < j < s.len() ==> s[i].bump_time >= s[j].bump_time
}

/// The model of a freshly created, empty store.
pub open spec fn empty_store() -> StoreM {
    StoreM {
        articles: Seq::empty(),
        media: Seq::empty(),
        comments: Seq::empty(),
        next_article_id: 1,
        next_comment_id: 1,
    }
}

/// One row of the article listing.
pub struct ArticleSummary {
    pub id: u64,
    pub title: String,
    pub bump_time: i64,
}

impl View for ArticleSummary {
    type V = SummaryM;

    open spec fn view(&self) -> SummaryM {
        SummaryM { id: self.id, title: self.title@, bump_time: self.bump_time }
    }
}

/// An article together with its resolved media references, as `get_article`
/// hands it out.
pub struct ArticleView {
    pub id: u64,
    pub title: String,
    pub body: String,
    pub bump_time: i64,
    pub media_paths: Vec<String>,
}

impl Store {
    /// A store with no records; ids start at 1.
    pub fn new() -> (s: Store)
        ensures
            s@ == empty_store(),
            s@.wf(),
    {
        let s = Store {
            articles: Vec::new(),
            media: Vec::new(),
            comments: Vec::new(),
            next_article_id: 1,
            next_comment_id: 1,
        };
        proof {
            assert(s@ =~= empty_store());
        }
        s
    }

    /// Index of the article with this id, if any.
    #[verifier::loop_isolation(false)]
    fn find_article_index(&self, id: u64) -> (r: Option<usize>)
        ensures
            match r {
                Some(i) => i < self.articles@.len() && self@.articles[i as int].id == id,
                None => !has_article(self@, id),
            },
    {
        let mut i: usize = 0;
        while i < self.articles.len()
            invariant
                i <= self.articles@.len(),
                forall|j: int| 0 <= j < i ==> self@.articles[j].id != id,
            decreases self.articles@.len() - i,
        {
            if self.articles[i].id == id {
                return Some(i);
            }
            i = i + 1;
        }
        None
    }

    /// Index of the comment with this id, if any.
    #[verifier::loop_isolation(false)]
    fn find_comment_index(&self, id: u64) -> (r: Option<usize>)
        ensures
            match r {
                Some(i) => i < self.comments@.len() && self@.comments[i as int].id == id,
                None => !has_comment(self@, id),
            },
    {
        let mut i: usize = 0;
        while i < self.comments.len()
            invariant
                i <= self.comments@.len(),
                forall|j: int| 0 <= j < i ==> self@.comments[j].id != id,
            decreases self.comments@.len() - i,
        {
            if self.comments[i].id == id {
                return Some(i);
            }
            i = i + 1;
        }
        None
    }

    /// Create an article with its initial media references, as one logical
    /// unit. Rejects an empty title, an empty body, or an empty media set
    /// with `ValidationError` and then changes nothing.
    #[verifier::loop_isolation(false)]
    pub fn create_article(
        &mut self,
        title: String,
        body: String,
        initial_media: Vec<String>,
        now: i64,
    ) -> (r: Result<u64, AppError>)
        requires
            old(self)@.wf(),
            old(self)@.next_article_id < u64::MAX,
        ensures
            final(self)@.wf(),
            title@.len() == 0 || body@.len() == 0 || initial_media@.len() == 0 ==> r == Err::<
                u64,
                AppError,
            >(AppError::ValidationError) && final(self)@ == old(self)@,
            title@.len() > 0 && body@.len() > 0 && initial_media@.len() > 0 ==> r == Ok::<
                u64,
                AppError,
            >(old(self)@.next_article_id) && final(self)@ == create_effect(
                old(self)@,
                title@,
                body@,
                paths_view(initial_media@),
                now,
            ),
    {
        if title.as_str().is_empty() || body.as_str().is_empty() || initial_media.len() == 0 {
            return Err(AppError::ValidationError);
        }
        let ghost m0 = self@;
        let ghost paths = paths_view(initial_media@);
        let id = self.next_article_id;
        self.articles.push(Article { id, title, body, bump_time: now });
        self.next_article_id = self.next_article_id + 1;
        let mut k: usize = 0;
        while k < initial_media.len()
            invariant
                k <= initial_media@.len(),
                self@.articles == m0.articles.push(
                    ArticleM { id, title: title@, body: body@, bump_time: now },
                ),
                self@.media =~= m0.media + media_refs_for(id, paths.take(k as int)),
                self@.comments == m0.comments,
                self@.next_article_id == m0.next_article_id + 1,
                self@.next_comment_id == m0.next_comment_id,
                id == m0.next_article_id,
            decreases initial_media@.len() - k,
        {
            let p = initial_media[k].clone();
            proof {
                assert(p@ == paths[k as int]);
            }
            self.media.push(MediaRef { article_id: id, path: p });
            proof {
                let lhs = self@.media;
                let rhs = m0.media + media_refs_for(id, paths.take(k + 1 as int));
                assert(lhs.len() == m0.media.len() + k + 1);
                assert(rhs.len() == m0.media.len() + k + 1);
                assert forall|i: int| 0 <= i < lhs.len() implies lhs[i] == rhs[i] by {
                    if i < m0.media.len() + k {
                        assert(lhs[i] == (m0.media + media_refs_for(id, paths.take(k as int)))[i]);
                    } else {
                        assert(lhs[i] == MediaM { article_id: id, path: p@ });
                        assert(paths.take(k + 1 as int)[k as int] == paths[k as int]);
                        assert(rhs[i] == MediaM { article_id: id, path: paths[k as int] });
                    }
                }
                assert(lhs =~= rhs);
            }
            k = k + 1;
        }
        proof {
            assert(paths.take(paths.len() as int) =~= paths);
            let m1 = create_effect(m0, title@, body@, paths, now);
            assert(self@ =~= m1);
            assert forall|i: int| 0 <= i < m1.comments.len() implies has_article(
                m1,
                (#[trigger] m1.comments[i]).article_id,
            ) by {
                let aid = m1.comments[i].article_id;
                let j = choose|j: int| 0 <= j < m0.articles.len() && m0.articles[j].id == aid;
                assert(m1.articles[j].id == aid);
            }
            assert forall|i: int| 0 <= i < m1.media.len() implies has_article(
                m1,
                (#[trigger] m1.media[i]).article_id,
            ) by {
                if i < m0.media.len() {
                    let aid = m1.media[i].article_id;
                    assert(m1.media[i] == m0.media[i]);
                    let j = choose|j: int| 0 <= j < m0.articles.len() && m0.articles[j].id == aid;
                    assert(m1.articles[j].id == aid);
                } else {
                    assert(m1.media[i] == media_refs_for(m0.next_article_id, paths)[i
                        - m0.media.len()]);
                    assert(m1.media[i].article_id == m0.next_article_id);
                    assert(m1.articles[m0.articles.len() as int].id == m0.next_article_id);
                }
            }
            assert(m1.wf());
        }
        Ok(id)
    }

    /// The article with this id and its media references; `NotFound` when
    /// it does not exist.
    #[verifier::loop_isolation(false)]
    pub fn get_article(&self, id: u64) -> (r: Result<ArticleView, AppError>)
        requires
            self@.wf(),
        ensures
            match r {
                Ok(v) => has_article(self@, id) && v.id == id && v.title@ == article_of(
                    self@,
                    id,
                ).title && v.body@ == article_of(self@, id).body && v.bump_time == article_of(
                    self@,
                    id,
                ).bump_time && v.media_paths@.map_values(|p: String| p@) == media_paths(
                    self@.media,
                    id,
                ),
                Err(e) => e == AppError::NotFound && !has_article(self@, id),
            },
    {
        let i = match self.find_article_index(id) {
            None => {
                return Err(AppError::NotFound);
            },
            Some(i) => i,
        };
        proof {
            let j = choose|j: int|
                0 <= j < self@.articles.len() && self@.articles[j].id == id;
            assert(self@.articles[j] == self@.articles[i as int]);
        }
        let mut paths: Vec<String> = Vec::new();
        let mut k: usize = 0;
        while k < self.media.len()
            invariant
                k <= self.media@.len(),
                paths@.map_values(|p: String| p@) =~= media_paths(
                    self@.media.take(k as int),
                    id,
                ),
            decreases self.media@.len() - k,
        {
            proof {
                assert(self@.media.take(k + 1 as int).drop_last() =~= self@.media.take(k as int));
            }
            if self.media[k].article_id == id {
                paths.push(self.media[k].path.clone());
            }
            proof {
                assert(paths@.map_values(|p: String| p@) =~= media_paths(
                    self@.media.take(k + 1 as int),
                    id,
                ));
            }
            k = k + 1;
        }
        proof {
            assert(self@.media.take(self@.media.len() as int) =~= self@.media);
        }
        Ok(
            ArticleView {
                id,
                title: self.articles[i].title.clone(),
                body: self.articles[i].body.clone(),
                bump_time: self.articles[i].bump_time,
                media_paths: paths,
            },
        )
    }

    /// Apply new title and body to the article with this id, bumping its
    /// recency marker: a successful edit-save resurfaces the article just
    /// as a comment does.
    #[verifier::loop_isolation(false)]
    pub fn update_article(&mut self, id: u64, title: String, body: String, now: i64) -> (r:
        Result<(), AppError>)
        requires
            old(self)@.wf(),
        ensures
            final(self)@.wf(),
            title@.len() == 0 || body@.len() == 0 ==> r == Err::<(), AppError>(
                AppError::ValidationError,
            ) && final(self)@ == old(self)@,
            title@.len() > 0 && body@.len() > 0 && !has_article(old(self)@, id) ==> r == Err::<
                (),
                AppError,
            >(AppError::NotFound) && final(self)@ == old(self)@,
            title@.len() > 0 && body@.len() > 0 && has_article(old(self)@, id) ==> r == Ok::<
                (),
                AppError,
            >(()) && final(self)@ == update_effect(old(self)@, id, title@, body@, now),
    {
        if title.as_str().is_empty() || body.as_str().is_empty() {
            return Err(AppError::ValidationError);
        }
        let i = match self.find_article_index(id) {
            None => {
                return Err(AppError::NotFound);
            },
            Some(i) => i,
        };
        let ghost m0 = self@;
        let old_bump = self.articles[i].bump_time;
        let bump = if now > old_bump {
            now
        } else {
            old_bump
        };
        self.articles[i] = Article { id, title, body, bump_time: bump };
        proof {
            let m1 = update_effect(m0, id, title@, body@, now);
            assert forall|j: int| 0 <= j < m1.articles.len() implies self@.articles[j]
                == m1.articles[j] by {
                if j != i {
                    assert(m0.articles[j].id != id);
                }
            }
            assert(self@ =~= m1);
            lemma_same_ids_has_article(m0, m1);
            assert(m1.wf());
        }
        Ok(())
    }

    /// Remove every media reference of the article and attach exactly one
    /// new one: replacing media during an edit is atomic, never partial.
    #[verifier::loop_isolation(false)]
    pub fn replace_media(&mut self, id: u64, new_path: String) -> (r: Result<(), AppError>)
        requires
            old(self)@.wf(),
        ensures
            final(self)@.wf(),
            !has_article(old(self)@, id) ==> r == Err::<(), AppError>(AppError::NotFound)
                && final(self)@ == old(self)@,
            has_article(old(self)@, id) ==> r == Ok::<(), AppError>(()) && final(self)@
                == replace_media_effect(old(self)@, id, new_path@),
    {
        let found = self.find_article_index(id);
        if found.is_none() {
            return Err(AppError::NotFound);
        }
        proof {
            let fi = found.unwrap();
            assert(self@.articles[fi as int].id == id);
        }
        let ghost m0 = self@;
        let mut kept: Vec<MediaRef> = Vec::new();
        let mut k: usize = 0;
        while k < self.media.len()
            invariant
                k <= self.media@.len(),
                kept@.map_values(|x: MediaRef| x@) =~= media_without(
                    m0.media.take(k as int),
                    id,
                ),
                self@ == m0,
            decreases self.media@.len() - k,
        {
            proof {
                assert(m0.media.take(k + 1 as int).drop_last() =~= m0.media.take(k as int));
            }
            if self.media[k].article_id != id {
                let path = self.media[k].path.clone();
                let article_id = self.media[k].article_id;
                kept.push(MediaRef { article_id, path });
            }
            proof {
                assert(kept@.map_values(|x: MediaRef| x@) =~= media_without(
                    m0.media.take(k + 1 as int),
                    id,
                ));
            }
            k = k + 1;
        }
        kept.push(MediaRef { article_id: id, path: new_path });
        self.media = kept;
        proof {
            assert(m0.media.take(m0.media.len() as int) =~= m0.media);
            let m1 = replace_media_effect(m0, id, new_path@);
            assert(self@ =~= m1);
            lemma_same_ids_has_article(m0, m1);
            lemma_media_without_membership(m0.media, id);
            assert forall|j: int| 0 <= j < m1.media.len() implies has_article(
                m1,
                (#[trigger] m1.media[j]).article_id,
            ) by {
                if j < m1.media.len() - 1 {
                    let x = m1.media[j];
                    assert(media_without(m0.media, id)[j] == x);
                    assert(media_without(m0.media, id).contains(x));
                    let w = choose|w: int| 0 <= w < m0.media.len() && m0.media[w] == x;
                    assert(has_article(m0, x.article_id));
                    let p = choose|p: int|
                        0 <= p < m0.articles.len() && m0.articles[p].id == x.article_id;
                    assert(m1.articles[p].id == x.article_id);
                } else {
                    assert(m1.media[j].article_id == id);
                    assert(has_article(m0, id));
                    let p = choose|p: int| 0 <= p < m0.articles.len() && m0.articles[p].id == id;
                    assert(m1.articles[p].id == id);
                }
            }
            assert(m1.wf());
        }
        Ok(())
    }

    /// Add a comment to an article and bump the article in the same step:
    /// both changes or neither. Empty text is rejected with
    /// `ValidationError`, a missing article with `NotFound`.
    #[verifier::loop_isolation(false)]
    pub fn create_comment(&mut self, article_id: u64, text: String, now: i64) -> (r: Result<
        u64,
        AppError,
    >)
        requires
            old(self)@.wf(),
            old(self)@.next_comment_id < u64::MAX,
        ensures
            final(self)@.wf(),
            text@.len() == 0 ==> r == Err::<u64, AppError>(AppError::ValidationError)
                && final(self)@ == old(self)@,
            text@.len() > 0 && !has_article(old(self)@, article_id) ==> r == Err::<
                u64,
                AppError,
            >(AppError::NotFound) && final(self)@ == old(self)@,
            text@.len() > 0 && has_article(old(self)@, article_id) ==> r == Ok::<u64, AppError>(
                old(self)@.next_comment_id,
            ) && final(self)@ == comment_effect(old(self)@, article_id, text@, now),
    {
        if text.as_str().is_empty() {
            return Err(AppError::ValidationError);
        }
        let i = match self.find_article_index(article_id) {
            None => {
                return Err(AppError::NotFound);
            },
            Some(i) => i,
        };
        let ghost m0 = self@;
        let cid = self.next_comment_id;
        self.comments.push(Comment { id: cid, article_id, text });
        self.next_comment_id = self.next_comment_id + 1;
        let old_bump = self.articles[i].bump_time;
        let bump = if now > old_bump {
            now
        } else {
            old_bump
        };
        let title = self.articles[i].title.clone();
        let body = self.articles[i].body.clone();
        let aid = self.articles[i].id;
        self.articles[i] = Article { id: aid, title, body, bump_time: bump };
        proof {
            let m1 = comment_effect(m0, article_id, text@, now);
            assert forall|j: int| 0 <= j < m1.articles.len() implies self@.articles[j]
                == m1.articles[j] by {
                if j != i {
                    assert(m0.articles[j].id != article_id);
                }
            }
            assert(self@ =~= m1);
            lemma_same_ids_has_article(m0, m1);
            assert forall|j: int| 0 <= j < m1.comments.len() implies has_article(
                m1,
                (#[trigger] m1.comments[j]).article_id,
            ) by {
                if j < m0.comments.len() {
                    assert(m1.comments[j] == m0.comments[j]);
                }
            }
            assert(m1.wf());
        }
        Ok(cid)
    }

    /// The comments of an article, in insertion order.
    #[verifier::loop_isolation(false)]
    pub fn list_comments(&self, article_id: u64) -> (r: Vec<Comment>)
        ensures
            r@.map_values(|c: Comment| c@) == comments_for(self@.comments, article_id),
    {
        let mut out: Vec<Comment> = Vec::new();
        let mut k: usize = 0;
        while k < self.comments.len()
            invariant
                k <= self.comments@.len(),
                out@.map_values(|c: Comment| c@) =~= comments_for(
                    self@.comments.take(k as int),
                    article_id,
                ),
            decreases self.comments@.len() - k,
        {
            proof {
                assert(self@.comments.take(k + 1 as int).drop_last() =~= self@.comments.take(
                    k as int,
                ));
            }
            if self.comments[k].article_id == article_id {
                let id = self.comments[k].id;
                let text = self.comments[k].text.clone();
                out.push(Comment { id, article_id, text });
            }
            proof {
                assert(out@.map_values(|c: Comment| c@) =~= comments_for(
                    self@.comments.take(k + 1 as int),
                    article_id,
                ));
            }
            k = k + 1;
        }
        proof {
            assert(self@.comments.take(self@.comments.len() as int) =~= self@.comments);
        }
        out
    }

    /// Cascading delete of an article: its media references, its comments,
    /// and the article itself go in one logical unit. Deleting an id that
    /// does not exist changes nothing.
    #[verifier::loop_isolation(false)]
    pub fn delete_article(&mut self, id: u64)
        requires
            old(self)@.wf(),
        ensures
            final(self)@.wf(),
            final(self)@ == delete_effect(old(self)@, id),
    {
        let ghost m0 = self@;
        let mut arts: Vec<Article> = Vec::new();
        let mut k: usize = 0;
        while k < self.articles.len()
            invariant
                k <= self.articles@.len(),
                arts@.map_values(|a: Article| a@) =~= arts_without(m0.articles.take(k as int), id),
                self@ == m0,
            decreases self.articles@.len() - k,
        {
            proof {
                assert(m0.articles.take(k + 1 as int).drop_last() =~= m0.articles.take(k as int));
            }
            if self.articles[k].id != id {
                let aid = self.articles[k].id;
                let title = self.articles[k].title.clone();
                let body = self.articles[k].body.clone();
                let bump_time = self.articles[k].bump_time;
                arts.push(Article { id: aid, title, body, bump_time });
            }
            proof {
                assert(arts@.map_values(|a: Article| a@) =~= arts_without(
                    m0.articles.take(k + 1 as int),
                    id,
                ));
            }
            k = k + 1;
        }
        let mut media: Vec<MediaRef> = Vec::new();
        let mut k2: usize = 0;
        while k2 < self.media.len()
            invariant
                k2 <= self.media@.len(),
                media@.map_values(|x: MediaRef| x@) =~= media_without(
                    m0.media.take(k2 as int),
                    id,
                ),
                self@ == m0,
            decreases self.media@.len() - k2,
        {
            proof {
                assert(m0.media.take(k2 + 1 as int).drop_last() =~= m0.media.take(k2 as int));
            }
            if self.media[k2].article_id != id {
                let article_id = self.media[k2].article_id;
                let path = self.media[k2].path.clone();
                media.push(MediaRef { article_id, path });
            }
            proof {
                assert(media@.map_values(|x: MediaRef| x@) =~= media_without(
                    m0.media.take(k2 + 1 as int),
                    id,
                ));
            }
            k2 = k2 + 1;
        }
        let mut cs: Vec<Comment> = Vec::new();
        let mut k3: usize = 0;
        while k3 < self.comments.len()
            invariant
                k3 <= self.comments@.len(),
                cs@.map_values(|c: Comment| c@) =~= comments_without_article(
                    m0.comments.take(k3 as int),
                    id,
                ),
                self@ == m0,
            decreases self.comments@.len() - k3,
        {
            proof {
                assert(m0.comments.take(k3 + 1 as int).drop_last() =~= m0.comments.take(
                    k3 as int,
                ));
            }
            if self.comments[k3].article_id != id {
                let cid = self.comments[k3].id;
                let article_id = self.comments[k3].article_id;
                let text = self.comments[k3].text.clone();
                cs.push(Comment { id: cid, article_id, text });
            }
            proof {
                assert(cs@.map_values(|c: Comment| c@) =~= comments_without_article(
                    m0.comments.take(k3 + 1 as int),
                    id,
                ));
            }
            k3 = k3 + 1;
        }
        self.articles = arts;
        self.media = media;
        self.comments = cs;
        proof {
            assert(m0.articles.take(m0.articles.len() as int) =~= m0.articles);
            assert(m0.media.take(m0.media.len() as int) =~= m0.media);
            assert(m0.comments.take(m0.comments.len() as int) =~= m0.comments);
            let m1 = delete_effect(m0, id);
            assert(self@ =~= m1);
            lemma_delete_effect_wf(m0, id);
        }
    }

    /// Resolve the owning article of a comment and remove the comment.
    /// The returned id is the redirect target: `Some` when the owning
    /// article still exists, `None` when it can no longer be determined.
    #[verifier::loop_isolation(false)]
    pub fn delete_comment(&mut self, comment_id: u64) -> (r: Result<Option<u64>, AppError>)
        requires
            unique_comment_ids(old(self)@.comments),
        ensures
            old(self)@.wf() ==> final(self)@.wf(),
            !has_comment(old(self)@, comment_id) ==> r == Err::<Option<u64>, AppError>(
                AppError::NotFound,
            ) && final(self)@ == old(self)@,
            has_comment(old(self)@, comment_id) ==> final(self)@ == comment_delete_effect(
                old(self)@,
                comment_id,
            ) && r == Ok::<Option<u64>, AppError>(
                if has_article(old(self)@, comment_of(old(self)@, comment_id).article_id) {
                    Some(comment_of(old(self)@, comment_id).article_id)
                } else {
                    None
                },
            ),
    {
        let i = match self.find_comment_index(comment_id) {
            None => {
                return Err(AppError::NotFound);
            },
            Some(i) => i,
        };
        proof {
            let j = choose|j: int|
                0 <= j < self@.comments.len() && self@.comments[j].id == comment_id;
            if j != i {
                assert(self@.comments[j].id == self@.comments[i as int].id);
            }
        }
        let aid = self.comments[i].article_id;
        let redirect = match self.find_article_index(aid) {
            None => None,
            Some(_) => Some(aid),
        };
        let ghost m0 = self@;
        let mut cs: Vec<Comment> = Vec::new();
        let mut k: usize = 0;
        while k < self.comments.len()
            invariant
                k <= self.comments@.len(),
                cs@.map_values(|c: Comment| c@) =~= comments_without(
                    m0.comments.take(k as int),
                    comment_id,
                ),
                self@ == m0,
            decreases self.comments@.len() - k,
        {
            proof {
                assert(m0.comments.take(k + 1 as int).drop_last() =~= m0.comments.take(k as int));
            }
            if self.comments[k].id != comment_id {
                let cid = self.comments[k].id;
                let article_id = self.comments[k].article_id;
                let text = self.comments[k].text.clone();
                cs.push(Comment { id: cid, article_id, text });
            }
            proof {
                assert(cs@.map_values(|c: Comment| c@) =~= comments_without(
                    m0.comments.take(k + 1 as int),
                    comment_id,
                ));
            }
            k = k + 1;
        }
        self.comments = cs;
        proof {
            assert(m0.comments.take(m0.comments.len() as int) =~= m0.comments);
            let m1 = comment_delete_effect(m0, comment_id);
            assert(self@ =~= m1);
            if m0.wf() {
                lemma_same_ids_has_article(m0, m1);
                lemma_comments_without_membership(m0.comments, comment_id);
                lemma_comments_without_unique(m0.comments, comment_id);
                assert forall|j: int| 0 <= j < m1.comments.len() implies (
                #[trigger] m1.comments[j]).id < m1.next_comment_id && m1.comments[j].text.len()
                    > 0 && has_article(m1, m1.comments[j].article_id) by {
                    let x = m1.comments[j];
                    assert(comments_without(m0.comments, comment_id)[j] == x);
                    assert(comments_without(m0.comments, comment_id).contains(x));
                    let w = choose|w: int| 0 <= w < m0.comments.len() && m0.comments[w] == x;
                    assert(has_article(m0, x.article_id));
                    let p = choose|p: int|
                        0 <= p < m0.articles.len() && m0.articles[p].id == x.article_id;
                    assert(m1.articles[p].id == x.article_id);
                }
                assert(m1.wf());
            }
        }
        Ok(redirect)
    }

    /// The listing: one row per article, ordered by recency marker,
    /// most recently bumped first. Recomputed on every call.
    #[verifier::loop_isolation(false)]
    pub fn list_articles(&self) -> (r: Vec<ArticleSummary>)
        ensures
            r@.len() == self@.articles.len(),
            sorted_desc(r@),
            r@.map_values(|s: ArticleSummary| s@).to_multiset() == self@.articles.map_values(
                |a: ArticleM| summary_of(a),
            ).to_multiset(),
    {
        broadcast use vstd::seq_lib::group_to_multiset_ensures;

        let ghost goal = self@.articles.map_values(|a: ArticleM| summary_of(a));
        let mut rest: Vec<ArticleSummary> = Vec::new();
        let mut k: usize = 0;
        while k < self.articles.len()
            invariant
                k <= self.articles@.len(),
                rest@.map_values(|s: ArticleSummary| s@) =~= goal.take(k as int),
            decreases self.articles@.len() - k,
        {
            let id = self.articles[k].id;
            let title = self.articles[k].title.clone();
            let bump_time = self.articles[k].bump_time;
            rest.push(ArticleSummary { id, title, bump_time });
            proof {
                assert(rest@.map_values(|s: ArticleSummary| s@) =~= goal.take(k + 1 as int));
            }
            k = k + 1;
        }
        proof {
            assert(goal.take(goal.len() as int) =~= goal);
        }
        let mut out: Vec<ArticleSummary> = Vec::new();
        while rest.len() > 0
            invariant
                out@.map_values(|s: ArticleSummary| s@).to_multiset().add(
                    rest@.map_values(|s: ArticleSummary| s@).to_multiset(),
                ) =~= goal.to_multiset(),
                out@.len() + rest@.len() == goal.len(),
                sorted_desc(out@),
                forall|i: int, j: int|
                    0 <= i < out@.len() && 0 <= j < rest@.len() ==> out@[i].bump_time
                        >= rest@[j].bump_time,
            decreases rest@.len(),
        {
            let mut best: usize = 0;
            let mut t: usize = 1;
            while t < rest.len()
                invariant
                    best < t <= rest@.len(),
                    forall|q: int| 0 <= q < t ==> rest@[best as int].bump_time
                        >= rest@[q].bump_time,
                decreases rest@.len() - t,
            {
                if rest[t].bump_time > rest[best].bump_time {
                    best = t;
                }
                t = t + 1;
            }
            let ghost rest0 = rest@;
            let ghost out0 = out@;
            let x = rest.remove(best);
            out.push(x);
            proof {
                let f = |s: ArticleSummary| s@;
                assert(rest@.map_values(f) =~= rest0.map_values(f).remove(best as int));
                assert(out@.map_values(f) =~= out0.map_values(f).push(x@));
                assert(rest0.map_values(f)[best as int] == x@);
                assert(rest0.map_values(f).remove(best as int).to_multiset()
                    =~= rest0.map_values(f).to_multiset().remove(x@));
                assert(rest0.map_values(f).to_multiset().count(x@) >= 1) by {
                    assert(rest0.map_values(f).contains(x@));
                }
                assert(out@.map_values(f).to_multiset().add(rest@.map_values(f).to_multiset())
                    =~= goal.to_multiset());
            }
        }
        out
    }

}

} // verus!
