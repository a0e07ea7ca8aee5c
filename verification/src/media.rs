//! Naming rules of the media store: a submitted filename is sanitized and
//! combined with a fixed prefix under a fixed upload root, so a stored
//! reference can never point outside that root.

use vstd::prelude::*;
use vstd::string::StringExecFns;

verus! {

/// The fixed upload root every stored reference lives under.
pub open spec fn upload_root() -> Seq<char> {
    "/uploads/"@
}

/// The fixed prefix that keeps article media apart from same-named files
/// of other features sharing the directory.
pub open spec fn media_prefix() -> Seq<char> {
    "article_"@
}

/// What sanitizing a filename yields: a function of the name alone.
pub uninterp spec fn sanitized_of(name: Seq<char>) -> Seq<char>;

/// A reference that stays inside the upload root: it extends the root by a
/// single non-empty name, free of path separators and not a dot-link, so
/// it can only denote a file directly under the root.
pub open spec fn within_upload_root(r: Seq<char>) -> bool {
    &&& r.len() > upload_root().len()
    &&& r.take(upload_root().len() as int) == upload_root()
    &&& (forall|i: int| upload_root().len() <= i < r.len() ==> r[i] != '/' && r[i] != '\\')
    &&& r.skip(upload_root().len() as int) != "."@
    &&& r.skip(upload_root().len() as int) != ".."@
}

/// Relies on sanitize_filename::sanitize_with_options, called with fixed
/// options (windows rules on, truncation on, replacement empty) so the
/// result depends on the name alone; its filters drop every '/' and '\'
/// along with the other characters its patterns refuse.
#[verifier::external_body]
fn sanitize_name(name: &str) -> (r: String)
    ensures
        r@ == sanitized_of(name@),
        forall|i: int| 0 <= i < r@.len() ==> r@[i] != '/' && r@[i] != '\\',
{
    sanitize_filename::sanitize_with_options(
        name,
        sanitize_filename::Options { windows: true, truncate: true, replacement: "" },
    )
}

/// The file name a media payload is stored under: the fixed prefix plus
/// the sanitized submitted name. Contains no path separator, so joining it
/// to a directory cannot escape that directory.
pub fn stored_media_name(filename: &str) -> (r: String)
    ensures
        r@ == media_prefix() + sanitized_of(filename@),
        forall|i: int| 0 <= i < r@.len() ==> r@[i] != '/' && r@[i] != '\\',
{
    let sanitized = sanitize_name(filename);
    let mut r = "article_".to_owned();
    r.append(sanitized.as_str());
    proof {
        reveal_strlit("article_");
        assert forall|i: int| 0 <= i < r@.len() implies r@[i] != '/' && r@[i] != '\\' by {
            if i < media_prefix().len() {
                assert(r@[i] == media_prefix()[i]);
            } else {
                assert(r@[i] == sanitized@[i - media_prefix().len()]);
            }
        }
    }
    r
}

/// The stored reference for a submitted filename: the upload root plus the
/// stored file name. The result always stays within the upload root,
/// whatever the submitted name contained.
pub fn stored_reference(filename: &str) -> (r: String)
    ensures
        r@ == upload_root() + media_prefix() + sanitized_of(filename@),
        within_upload_root(r@),
{
    let name = stored_media_name(filename);
    let mut r = "/uploads/".to_owned();
    r.append(name.as_str());
    proof {
        reveal_strlit("/uploads/");
        reveal_strlit("article_");
        reveal_strlit(".");
        reveal_strlit("..");
        assert(r@ =~= upload_root() + media_prefix() + sanitized_of(filename@));
        let root_len = upload_root().len() as int;
        assert(r@.take(root_len) =~= upload_root());
        assert forall|i: int| root_len <= i < r@.len() implies r@[i] != '/' && r@[i]
            != '\\' by {
            assert(r@[i] == name@[i - root_len]);
        }
        assert(r@.skip(root_len).len() >= media_prefix().len());
        assert(r@.skip(root_len) != "."@);
        assert(r@.skip(root_len) != ".."@);
    }
    r
}

} // verus!
