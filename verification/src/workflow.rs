//! The password-gated workflows over the store: the two-phase edit
//! protocol, the single-phase deletions, and the submissions that stamp
//! records with the current time.

use vstd::prelude::*;

use crate::errors::AppError;
use crate::store::Store;
use crate::store::StoreM;
use crate::store::article_of;
use crate::store::comment_delete_effect;
use crate::store::comment_effect;
use crate::store::comment_of;
use crate::store::create_effect;
use crate::store::delete_effect;
use crate::store::has_article;
use crate::store::has_comment;
use crate::store::media_paths;
use crate::store::paths_view;
use crate::store::replace_media_effect;
use crate::store::update_effect;

verus! {

/// The admin gate: one process-wide shared secret, injected at
/// construction and compared on every call.
pub struct AdminGate {
    pub secret: String,
}

impl AdminGate {
    /// A gate holding the configured secret.
    pub fn new(secret: String) -> (g: AdminGate)
        ensures
            g.secret@ == secret@,
    {
        AdminGate { secret }
    }

    /// True exactly when the submitted credential matches the secret.
    /// Never fails; callers translate `false` into `Unauthorized`.
    pub fn authorize(&self, supplied: &String) -> (r: bool)
        ensures
            r == (supplied@ == self.secret@),
    {
        *supplied == self.secret
    }
}

/// Relies on chrono::Utc::now().timestamp(): the current time as whole
/// seconds since the Unix epoch. Nothing is assumed of the clock's value;
/// every caller works for any result.
#[verifier::external_body]
fn now_timestamp() -> i64 {
    chrono::Utc::now().timestamp()
}

/// One submission of the edit form: the credential travels with every
/// request, the phase is a client-supplied string, and a replacement
/// media reference is optional.
pub struct EditRequest {
    pub password: String,
    pub mode: String,
    pub title: String,
    pub body: String,
    pub new_media: Option<String>,
}

/// What the confirm phase hands back for re-display: the current data and
/// the credential echoed into the next request's form.
pub struct EditFormData {
    pub password: String,
    pub title: String,
    pub body: String,
    pub current_media: String,
}

/// The outcome of one edit submission that was not refused.
pub enum EditOutcome {
    /// The confirm phase: current data to re-display.
    Confirm(EditFormData),
    /// The commit phase went through; redirect to this article.
    Saved(u64),
}

/// Where to send the admin after a comment deletion.
#[derive(Clone, Copy, Debug, PartialEq, Eq, Structural)]
pub enum RedirectTarget {
    /// The owning article still exists.
    Article(u64),
    /// The owning article could not be determined; back to the listing.
    Listing,
}

/// The first media path of an article, or the empty string: what the
/// confirm phase shows as the current media.
pub open spec fn first_media_or_empty(m: StoreM, id: u64) -> Seq<char> {
    if media_paths(m.media, id).len() > 0 {
        media_paths(m.media, id)[0]
    } else {
        Seq::empty()
    }
}

/// The view of an optional replacement path.
pub open spec fn opt_path_view(o: Option<String>) -> Option<Seq<char>> {
    match o {
        Some(p) => Some(p@),
        None => None,
    }
}

/// What a successful edit-save does to the model: the update, then the
/// atomic media replacement when a new file was submitted.
pub open spec fn save_effect(
    m: StoreM,
    id: u64,
    title: Seq<char>,
    body: Seq<char>,
    new_media: Option<Seq<char>>,
    now: i64,
) -> StoreM {
    let u = update_effect(m, id, title, body, now);
    match new_media {
        Some(p) => replace_media_effect(u, id, p),
        None => u,
    }
}

/// One submission of the two-phase edit workflow. The credential is
/// re-validated on every phase; a failure terminates the workflow with
/// `Unauthorized` and the store untouched. The confirm phase returns the
/// current data unmodified, echoing the credential; the commit phase
/// applies the new fields, bumps the article, and replaces its media only
/// when a new file was submitted. An unrecognized phase is refused with
/// `InvalidRequest`.
pub fn edit_article(
    store: &mut Store,
    gate: &AdminGate,
    article_id: u64,
    req: EditRequest,
) -> (r: Result<EditOutcome, AppError>)
    requires
        old(store)@.wf(),
    ensures
        final(store)@.wf(),
        req.password@ != gate.secret@ ==> r == Err::<EditOutcome, AppError>(
            AppError::Unauthorized,
        ) && final(store)@ == old(store)@,
        req.password@ == gate.secret@ && req.mode@ == "check"@ && !has_article(
            old(store)@,
            article_id,
        ) ==> r == Err::<EditOutcome, AppError>(AppError::NotFound) && final(store)@ == old(store)@,
        req.password@ == gate.secret@ && req.mode@ == "check"@ && has_article(
            old(store)@,
            article_id,
        ) ==> final(store)@ == old(store)@ && (match r {
            Ok(EditOutcome::Confirm(f)) => f.password@ == req.password@ && f.title@ == article_of(
                old(store)@,
                article_id,
            ).title && f.body@ == article_of(old(store)@, article_id).body && f.current_media@
                == first_media_or_empty(old(store)@, article_id),
            _ => false,
        }),
        req.password@ == gate.secret@ && req.mode@ == "save"@ && (req.title@.len() == 0
            || req.body@.len() == 0) ==> r == Err::<EditOutcome, AppError>(
            AppError::ValidationError,
        ) && final(store)@ == old(store)@,
        req.password@ == gate.secret@ && req.mode@ == "save"@ && req.title@.len() > 0
            && req.body@.len() > 0 && !has_article(old(store)@, article_id) ==> r == Err::<
            EditOutcome,
            AppError,
        >(AppError::NotFound) && final(store)@ == old(store)@,
        req.password@ == gate.secret@ && req.mode@ == "save"@ && req.title@.len() > 0
            && req.body@.len() > 0 && has_article(old(store)@, article_id) ==> r == Ok::<
            EditOutcome,
            AppError,
        >(EditOutcome::Saved(article_id)) && (exists|t: i64|
            final(store)@ == save_effect(
                old(store)@,
                article_id,
                req.title@,
                req.body@,
                opt_path_view(req.new_media),
                t,
            )),
        req.password@ == gate.secret@ && req.mode@ != "check"@ && req.mode@ != "save"@ ==> r
            == Err::<EditOutcome, AppError>(AppError::InvalidRequest) && final(store)@ == old(store)@,
{
    let ghost m0 = store@;
    proof {
        reveal_strlit("check");
        reveal_strlit("save");
        assert("check"@.len() == 5);
        assert("save"@.len() == 4);
    }
    if !gate.authorize(&req.password) {
        return Err(AppError::Unauthorized);
    }
    if req.mode == "check".to_owned() {
        match store.get_article(article_id) {
            Err(_) => Err(AppError::NotFound),
            Ok(v) => {
                let current_media = if v.media_paths.len() > 0 {
                    v.media_paths[0].clone()
                } else {
                    String::new()
                };
                Ok(
                    EditOutcome::Confirm(
                        EditFormData {
                            password: req.password,
                            title: v.title,
                            body: v.body,
                            current_media,
                        },
                    ),
                )
            },
        }
    } else if req.mode == "save".to_owned() {
        if req.title.as_str().is_empty() || req.body.as_str().is_empty() {
            return Err(AppError::ValidationError);
        }
        let now = now_timestamp();
        match store.update_article(article_id, req.title, req.body, now) {
            Err(e) => Err(e),
            Ok(_) => {
                proof {
                    let u = update_effect(m0, article_id, req.title@, req.body@, now);
                    assert forall|j: int| 0 <= j < u.articles.len() implies u.articles[j].id
                        == m0.articles[j].id by {}
                    crate::store::lemma_same_ids_has_article(m0, u);
                }
                match req.new_media {
                    None => {
                        proof {
                            assert(store@ == save_effect(
                                m0,
                                article_id,
                                req.title@,
                                req.body@,
                                opt_path_view(req.new_media),
                                now,
                            ));
                        }
                        Ok(EditOutcome::Saved(article_id))
                    },
                    Some(p) => {
                        let ghost pv = p@;
                        match store.replace_media(article_id, p) {
                            Ok(_) => {
                                proof {
                                    assert(store@ == save_effect(
                                        m0,
                                        article_id,
                                        req.title@,
                                        req.body@,
                                        Some(pv),
                                        now,
                                    ));
                                }
                                Ok(EditOutcome::Saved(article_id))
                            },
                            Err(e) => Err(e),
                        }
                    },
                }
            },
        }
    } else {
        Err(AppError::InvalidRequest)
    }
}

/// Single-phase gated deletion of an article: validate the credential,
/// then delete the article, its media references, and its comments as one
/// unit.
pub fn delete_article_gated(
    store: &mut Store,
    gate: &AdminGate,
    article_id: u64,
    password: &String,
) -> (r: Result<(), AppError>)
    requires
        old(store)@.wf(),
    ensures
        final(store)@.wf(),
        password@ != gate.secret@ ==> r == Err::<(), AppError>(AppError::Unauthorized) && final(store)@ == old(store)@,
        password@ == gate.secret@ ==> r == Ok::<(), AppError>(()) && final(store)@
            == delete_effect(old(store)@, article_id),
{
    if !gate.authorize(password) {
        return Err(AppError::Unauthorized);
    }
    store.delete_article(article_id);
    Ok(())
}

/// Single-phase gated deletion of a comment: validate the credential,
/// resolve the redirect target, then delete the comment. The redirect
/// names the owning article when it still exists, else the listing page.
pub fn delete_comment_gated(
    store: &mut Store,
    gate: &AdminGate,
    comment_id: u64,
    password: &String,
) -> (r: Result<RedirectTarget, AppError>)
    requires
        old(store)@.wf(),
    ensures
        final(store)@.wf(),
        password@ != gate.secret@ ==> r == Err::<RedirectTarget, AppError>(
            AppError::Unauthorized,
        ) && final(store)@ == old(store)@,
        password@ == gate.secret@ && !has_comment(old(store)@, comment_id) ==> r == Err::<
            RedirectTarget,
            AppError,
        >(AppError::NotFound) && final(store)@ == old(store)@,
        password@ == gate.secret@ && has_comment(old(store)@, comment_id) ==> final(store)@
            == comment_delete_effect(old(store)@, comment_id) && r == Ok::<
            RedirectTarget,
            AppError,
        >(
            if has_article(old(store)@, comment_of(old(store)@, comment_id).article_id) {
                RedirectTarget::Article(comment_of(old(store)@, comment_id).article_id)
            } else {
                RedirectTarget::Listing
            },
        ),
{
    if !gate.authorize(password) {
        return Err(AppError::Unauthorized);
    }
    match store.delete_comment(comment_id) {
        Err(e) => Err(e),
        Ok(Some(aid)) => Ok(RedirectTarget::Article(aid)),
        Ok(None) => Ok(RedirectTarget::Listing),
    }
}

/// Submission of a new article: stamps the record with the current time
/// and creates it together with its media references.
pub fn submit_article(
    store: &mut Store,
    title: String,
    body: String,
    media_refs: Vec<String>,
) -> (r: Result<u64, AppError>)
    requires
        old(store)@.wf(),
        old(store)@.next_article_id < u64::MAX,
    ensures
        final(store)@.wf(),
        title@.len() == 0 || body@.len() == 0 || media_refs@.len() == 0 ==> r == Err::<
            u64,
            AppError,
        >(AppError::ValidationError) && final(store)@ == old(store)@,
        title@.len() > 0 && body@.len() > 0 && media_refs@.len() > 0 ==> r == Ok::<u64, AppError>(
            old(store)@.next_article_id,
        ) && (exists|t: i64|
            final(store)@ == #[trigger] create_effect(
                old(store)@,
                title@,
                body@,
                paths_view(media_refs@),
                t,
            )),
{
    let ghost m0 = store@;
    let now = now_timestamp();
    let r = store.create_article(title, body, media_refs, now);
    proof {
        if title@.len() > 0 && body@.len() > 0 && media_refs@.len() > 0 {
            assert(store@ == create_effect(m0, title@, body@, paths_view(media_refs@), now));
        }
    }
    r
}

/// Submission of a comment: stamps the bump with the current time and
/// inserts the comment and the bump as one unit.
pub fn submit_comment(store: &mut Store, article_id: u64, text: String) -> (r: Result<
    u64,
    AppError,
>)
    requires
        old(store)@.wf(),
        old(store)@.next_comment_id < u64::MAX,
    ensures
        final(store)@.wf(),
        text@.len() == 0 ==> r == Err::<u64, AppError>(AppError::ValidationError)
            && final(store)@ == old(store)@,
        text@.len() > 0 && !has_article(old(store)@, article_id) ==> r == Err::<u64, AppError>(
            AppError::NotFound,
        ) && final(store)@ == old(store)@,
        text@.len() > 0 && has_article(old(store)@, article_id) ==> r == Ok::<u64, AppError>(
            old(store)@.next_comment_id,
        ) && (exists|t: i64|
            final(store)@ == #[trigger] comment_effect(old(store)@, article_id, text@, t)),
{
    let ghost m0 = store@;
    let now = now_timestamp();
    let r = store.create_comment(article_id, text, now);
    proof {
        if text@.len() > 0 && has_article(m0, article_id) {
            assert(store@ == comment_effect(m0, article_id, text@, now));
        }
    }
    r
}

} // verus!
