use article_board::errors::AppError;
use article_board::media::stored_media_name;
use article_board::media::stored_reference;
use article_board::store::Comment;
use article_board::store::Store;
use article_board::workflow::AdminGate;
use article_board::workflow::EditOutcome;
use article_board::workflow::EditRequest;
use article_board::workflow::RedirectTarget;
use article_board::workflow::delete_article_gated;
use article_board::workflow::delete_comment_gated;
use article_board::workflow::edit_article;
use article_board::workflow::submit_article;
use article_board::workflow::submit_comment;

fn seeded() -> (Store, u64) {
    let mut store = Store::new();
    let id = store
        .create_article(
            "First".to_string(),
            "Body one".to_string(),
            vec!["/uploads/article_a.png".to_string()],
            100,
        )
        .unwrap();
    (store, id)
}

#[test]
fn create_then_get_round_trip() {
    let mut store = Store::new();
    let id = store
        .create_article(
            "Title".to_string(),
            "Body".to_string(),
            vec!["/uploads/article_x.png".to_string(), "/uploads/article_y.mp4".to_string()],
            42,
        )
        .unwrap();
    let view = store.get_article(id).unwrap();
    assert_eq!(view.id, id);
    assert_eq!(view.title, "Title");
    assert_eq!(view.body, "Body");
    assert_eq!(view.bump_time, 42);
    assert_eq!(
        view.media_paths,
        vec!["/uploads/article_x.png".to_string(), "/uploads/article_y.mp4".to_string()]
    );
}

#[test]
fn listing_orders_by_bump_descending() {
    let (mut store, first) = seeded();
    let second = store
        .create_article(
            "Second".to_string(),
            "Body two".to_string(),
            vec!["/uploads/article_b.png".to_string()],
            200,
        )
        .unwrap();
    let rows = store.list_articles();
    assert_eq!(rows.len(), 2);
    assert_eq!(rows[0].id, second);
    assert_eq!(rows[0].title, "Second");
    assert_eq!(rows[1].id, first);

    // a comment bumps the first article back to the top
    store.create_comment(first, "hi".to_string(), 300).unwrap();
    let rows = store.list_articles();
    assert_eq!(rows[0].id, first);
    assert_eq!(rows[1].id, second);
}

#[test]
fn create_rejects_empty_title() {
    let mut store = Store::new();
    let r = store.create_article(
        "".to_string(),
        "Body".to_string(),
        vec!["/uploads/article_x.png".to_string()],
        1,
    );
    assert_eq!(r, Err(AppError::ValidationError));
    assert_eq!(store.list_articles().len(), 0);
}

#[test]
fn create_rejects_empty_body() {
    let mut store = Store::new();
    let r = store.create_article(
        "Title".to_string(),
        "".to_string(),
        vec!["/uploads/article_x.png".to_string()],
        1,
    );
    assert_eq!(r, Err(AppError::ValidationError));
    assert_eq!(store.list_articles().len(), 0);
}

#[test]
fn create_rejects_empty_media_set() {
    let mut store = Store::new();
    let r = store.create_article("Title".to_string(), "Body".to_string(), Vec::new(), 1);
    assert_eq!(r, Err(AppError::ValidationError));
    assert_eq!(store.list_articles().len(), 0);
}

#[test]
fn comment_bumps_parent_and_appends() {
    let (mut store, id) = seeded();
    let before = store.get_article(id).unwrap().bump_time;
    store.create_comment(id, "first comment".to_string(), 500).unwrap();
    store.create_comment(id, "hi".to_string(), 600).unwrap();
    let after = store.get_article(id).unwrap().bump_time;
    assert!(after >= before);
    let comments = store.list_comments(id);
    assert_eq!(comments.len(), 2);
    assert_eq!(comments[1].text, "hi");
    assert_eq!(comments[0].text, "first comment");
}

#[test]
fn comment_requires_text_and_parent() {
    let (mut store, id) = seeded();
    assert_eq!(store.create_comment(id, "".to_string(), 1), Err(AppError::ValidationError));
    assert_eq!(store.create_comment(9999, "hi".to_string(), 1), Err(AppError::NotFound));
}

#[test]
fn delete_cascades() {
    let (mut store, id) = seeded();
    store.create_comment(id, "hi".to_string(), 150).unwrap();
    store.delete_article(id);
    assert_eq!(store.get_article(id).map(|v| v.id), Err(AppError::NotFound));
    assert_eq!(store.list_comments(id).len(), 0);
    assert_eq!(store.list_articles().len(), 0);
}

#[test]
fn get_missing_article_is_not_found() {
    let store = Store::new();
    assert_eq!(store.get_article(1).map(|v| v.id), Err(AppError::NotFound));
}

#[test]
fn edit_check_wrong_credential_rejected() {
    let (mut store, id) = seeded();
    let gate = AdminGate::new("secret".to_string());
    let r = edit_article(
        &mut store,
        &gate,
        id,
        EditRequest {
            password: "wrong".to_string(),
            mode: "check".to_string(),
            title: String::new(),
            body: String::new(),
            new_media: None,
        },
    );
    assert!(matches!(r, Err(AppError::Unauthorized)));
    let view = store.get_article(id).unwrap();
    assert_eq!(view.title, "First");
    assert_eq!(view.body, "Body one");
}

#[test]
fn edit_check_returns_current_data_and_echoes_credential() {
    let (mut store, id) = seeded();
    let gate = AdminGate::new("secret".to_string());
    let r = edit_article(
        &mut store,
        &gate,
        id,
        EditRequest {
            password: "secret".to_string(),
            mode: "check".to_string(),
            title: String::new(),
            body: String::new(),
            new_media: None,
        },
    );
    match r {
        Ok(EditOutcome::Confirm(form)) => {
            assert_eq!(form.password, "secret");
            assert_eq!(form.title, "First");
            assert_eq!(form.body, "Body one");
            assert_eq!(form.current_media, "/uploads/article_a.png");
        }
        _ => panic!("expected the confirm phase"),
    }
}

#[test]
fn edit_save_applies_fields_and_keeps_media() {
    let (mut store, id) = seeded();
    let gate = AdminGate::new("secret".to_string());
    let before = store.get_article(id).unwrap().bump_time;
    let r = edit_article(
        &mut store,
        &gate,
        id,
        EditRequest {
            password: "secret".to_string(),
            mode: "save".to_string(),
            title: "T2".to_string(),
            body: "B2".to_string(),
            new_media: None,
        },
    );
    assert!(matches!(r, Ok(EditOutcome::Saved(aid)) if aid == id));
    let view = store.get_article(id).unwrap();
    assert_eq!(view.title, "T2");
    assert_eq!(view.body, "B2");
    assert_eq!(view.media_paths, vec!["/uploads/article_a.png".to_string()]);
    assert!(view.bump_time >= before);
}

#[test]
fn edit_save_rejects_empty_fields() {
    let (mut store, id) = seeded();
    let gate = AdminGate::new("secret".to_string());
    let r = edit_article(
        &mut store,
        &gate,
        id,
        EditRequest {
            password: "secret".to_string(),
            mode: "save".to_string(),
            title: "".to_string(),
            body: "B2".to_string(),
            new_media: None,
        },
    );
    assert!(matches!(r, Err(AppError::ValidationError)));
    assert_eq!(store.get_article(id).unwrap().title, "First");
}

#[test]
fn edit_save_replaces_media_atomically() {
    let (mut store, id) = seeded();
    let gate = AdminGate::new("secret".to_string());
    let r = edit_article(
        &mut store,
        &gate,
        id,
        EditRequest {
            password: "secret".to_string(),
            mode: "save".to_string(),
            title: "T2".to_string(),
            body: "B2".to_string(),
            new_media: Some("/uploads/article_new.png".to_string()),
        },
    );
    assert!(matches!(r, Ok(EditOutcome::Saved(_))));
    let view = store.get_article(id).unwrap();
    assert_eq!(view.media_paths, vec!["/uploads/article_new.png".to_string()]);
}

#[test]
fn edit_save_wrong_credential_rejected() {
    let (mut store, id) = seeded();
    let gate = AdminGate::new("secret".to_string());
    let r = edit_article(
        &mut store,
        &gate,
        id,
        EditRequest {
            password: "guess".to_string(),
            mode: "save".to_string(),
            title: "T2".to_string(),
            body: "B2".to_string(),
            new_media: None,
        },
    );
    assert!(matches!(r, Err(AppError::Unauthorized)));
    assert_eq!(store.get_article(id).unwrap().title, "First");
}

#[test]
fn edit_save_missing_article_not_found() {
    let mut store = Store::new();
    let gate = AdminGate::new("secret".to_string());
    let r = edit_article(
        &mut store,
        &gate,
        42,
        EditRequest {
            password: "secret".to_string(),
            mode: "save".to_string(),
            title: "T2".to_string(),
            body: "B2".to_string(),
            new_media: None,
        },
    );
    assert!(matches!(r, Err(AppError::NotFound)));
}

#[test]
fn edit_unknown_mode_is_invalid_request() {
    let (mut store, id) = seeded();
    let gate = AdminGate::new("secret".to_string());
    let r = edit_article(
        &mut store,
        &gate,
        id,
        EditRequest {
            password: "secret".to_string(),
            mode: "frobnicate".to_string(),
            title: "T2".to_string(),
            body: "B2".to_string(),
            new_media: None,
        },
    );
    assert!(matches!(r, Err(AppError::InvalidRequest)));
    assert_eq!(store.get_article(id).unwrap().title, "First");
}

#[test]
fn gated_article_delete_checks_credential() {
    let (mut store, id) = seeded();
    let gate = AdminGate::new("secret".to_string());
    let wrong = "nope".to_string();
    assert!(matches!(
        delete_article_gated(&mut store, &gate, id, &wrong),
        Err(AppError::Unauthorized)
    ));
    assert!(store.get_article(id).is_ok());
    let right = "secret".to_string();
    assert!(delete_article_gated(&mut store, &gate, id, &right).is_ok());
    assert_eq!(store.get_article(id).map(|v| v.id), Err(AppError::NotFound));
}

#[test]
fn comment_delete_redirects_to_owner() {
    let (mut store, id) = seeded();
    let gate = AdminGate::new("secret".to_string());
    let cid = store.create_comment(id, "hi".to_string(), 150).unwrap();
    let pw = "secret".to_string();
    let r = delete_comment_gated(&mut store, &gate, cid, &pw);
    assert_eq!(r, Ok(RedirectTarget::Article(id)));
    assert_eq!(store.list_comments(id).len(), 0);
}

#[test]
fn comment_delete_missing_is_not_found() {
    let (mut store, _) = seeded();
    let gate = AdminGate::new("secret".to_string());
    let pw = "secret".to_string();
    assert_eq!(delete_comment_gated(&mut store, &gate, 555, &pw), Err(AppError::NotFound));
}

#[test]
fn comment_delete_without_owner_redirects_to_listing() {
    // an orphaned comment: its article is gone from the record set
    let mut store = Store {
        articles: Vec::new(),
        media: Vec::new(),
        comments: vec![Comment { id: 7, article_id: 99, text: "stray".to_string() }],
        next_article_id: 1,
        next_comment_id: 8,
    };
    let r = store.delete_comment(7);
    assert_eq!(r, Ok(None));
    assert_eq!(store.comments.len(), 0);
}

#[test]
fn sanitizer_confines_references_to_upload_root() {
    for name in [
        "../../etc/passwd",
        "a/b\\c.png",
        "..",
        "...",
        "/absolute/path.png",
        "plain.png",
        "..\\windows\\system32",
    ] {
        let reference = stored_reference(name);
        assert!(reference.starts_with("/uploads/article_"));
        let rest = &reference["/uploads/".len()..];
        assert!(!rest.contains('/'));
        assert!(!rest.contains('\\'));
        assert_ne!(rest, ".");
        assert_ne!(rest, "..");
    }
}

#[test]
fn sanitizer_strips_separators_from_stored_names() {
    let name = stored_media_name("../../traversal.png");
    assert!(name.starts_with("article_"));
    assert!(!name.contains('/'));
    assert!(!name.contains('\\'));
    assert_eq!(name, "article_....traversal.png");
}

#[test]
fn plain_names_survive_sanitizing() {
    assert_eq!(stored_reference("photo.png"), "/uploads/article_photo.png");
    assert_eq!(stored_media_name("clip.mp4"), "article_clip.mp4");
}

#[test]
fn submissions_stamp_the_clock() {
    let mut store = Store::new();
    let id = submit_article(
        &mut store,
        "Title".to_string(),
        "Body".to_string(),
        vec!["/uploads/article_z.png".to_string()],
    )
    .unwrap();
    let before = store.get_article(id).unwrap().bump_time;
    submit_comment(&mut store, id, "hello".to_string()).unwrap();
    let after = store.get_article(id).unwrap().bump_time;
    assert!(after >= before);
    assert_eq!(
        submit_article(&mut store, "".to_string(), "B".to_string(), vec!["m".to_string()]),
        Err(AppError::ValidationError)
    );
    assert_eq!(submit_comment(&mut store, 999, "hello".to_string()), Err(AppError::NotFound));
}

#[test]
fn error_messages_name_each_kind() {
    assert_eq!(AppError::ValidationError.message(), "a required field is empty");
    assert_eq!(AppError::NotFound.message(), "not found");
    assert_eq!(AppError::Unauthorized.message(), "incorrect password");
    assert_eq!(AppError::StorageWriteError.message(), "failed to store media");
    assert_eq!(AppError::InvalidRequest.message(), "invalid mode");
    assert_eq!(AppError::DependencyError.message(), "the store failed");
}

#[test]
fn gate_compares_against_configured_secret() {
    let gate = AdminGate::new("changeme".to_string());
    let ok = "changeme".to_string();
    let bad = "changeMe".to_string();
    assert!(gate.authorize(&ok));
    assert!(!gate.authorize(&bad));
}
