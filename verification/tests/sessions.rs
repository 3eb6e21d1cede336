//! Session authority behaviour: CSRF token lifecycle, principal-kind
//! isolation, session-fixation rotation at administrator login, and the
//! CSRF-gated mutation flows.

use admin_core::cache::AppState;
use admin_core::controllers::{
    admin_country_create_submit, admin_country_delete, admin_login_submit, admin_logout,
    issue_or_get_csrf_token, logout, user_create_submit, user_delete, user_detail,
    user_edit_submit,
};
use admin_core::models::{CountryForm, CreateUserForm, CsrfOnlyForm, LoginForm, UpdateUserForm};
use admin_core::session::{
    ensure_csrf_token, validate_csrf, AdminUser, AuthUser, Session, SessionStore,
};
use admin_core::AppError;

const T0: u64 = 1_000;

#[test]
fn csrf_token_round_trip() {
    let mut session = Session::new();
    let token = ensure_csrf_token(&mut session);
    assert_eq!(token.chars().count(), 32);
    assert!(token.chars().all(|c| c.is_ascii_alphanumeric()));

    // the token validates for its session, repeatedly, and stays stable
    assert!(validate_csrf(&session, &token));
    assert!(validate_csrf(&session, &token));
    assert_eq!(ensure_csrf_token(&mut session), token);

    // a wrong or empty submission fails
    assert!(!validate_csrf(&session, "not-the-token"));
    assert!(!validate_csrf(&session, ""));

    // a session with no stored token fails every submission
    let fresh = Session::new();
    assert!(!validate_csrf(&fresh, &token));

    // another session's token does not validate here
    let mut other = Session::new();
    let other_token = ensure_csrf_token(&mut other);
    assert_ne!(other_token, token);
    assert!(!validate_csrf(&session, &other_token));
}

#[test]
fn principal_kinds_are_isolated() {
    let mut session = Session::new();
    let token = ensure_csrf_token(&mut session);

    AuthUser::new(7, "enduser".to_string()).login(&mut session);
    AdminUser::new(3, "root".to_string()).login(&mut session);

    // both bindings coexist; the token survived both logins
    assert_eq!(AuthUser::from_session(&session).unwrap().id, 7);
    assert_eq!(AdminUser::from_session(&session).unwrap().id, 3);
    assert!(validate_csrf(&session, &token));

    // logging the administrator out leaves the end-user bound
    AdminUser::logout(&mut session);
    assert!(AdminUser::from_session(&session).is_none());
    assert_eq!(AuthUser::from_session(&session).unwrap().username, "enduser");

    // and the other way around
    AdminUser::new(3, "root".to_string()).login(&mut session);
    AuthUser::logout(&mut session);
    assert!(AuthUser::from_session(&session).is_none());
    assert_eq!(AdminUser::from_session(&session).unwrap().username, "root");
}

#[test]
fn admin_login_rotates_the_session_id() {
    let mut app = AppState::new();
    app.create_admin("root", "root@example.com", "hunter2secret", T0)
        .unwrap();

    let mut store = SessionStore::new();
    let sid = store.create_session().unwrap();
    let token = issue_or_get_csrf_token(&mut store, sid).unwrap();

    // an end-user is already bound in this session
    {
        let mut s = store.session(sid).unwrap().clone();
        AuthUser::new(42, "visitor".to_string()).login(&mut s);
        assert!(store.put_session(sid, s));
    }

    let creds = LoginForm {
        username: "root".to_string(),
        password: "hunter2secret".to_string(),
        csrf_token: token.clone(),
    };
    let new_sid = admin_login_submit(app.directory(), &mut store, sid, &creds).unwrap();

    // fixation defense: a fresh identifier, the old one stops resolving
    assert_ne!(new_sid, sid);
    assert!(store.session(sid).is_none());

    // the record moved intact: admin bound, end-user binding and CSRF
    // token preserved
    let migrated = store.session(new_sid).unwrap();
    assert_eq!(AdminUser::from_session(migrated).unwrap().username, "root");
    assert_eq!(AuthUser::from_session(migrated).unwrap().id, 42);
    assert!(validate_csrf(migrated, &token));
}

#[test]
fn admin_login_rejects_bad_credentials() {
    let mut app = AppState::new();
    app.create_admin("root", "root@example.com", "hunter2secret", T0)
        .unwrap();

    let mut store = SessionStore::new();
    let sid = store.create_session().unwrap();
    let token = issue_or_get_csrf_token(&mut store, sid).unwrap();

    let wrong_password = LoginForm {
        username: "root".to_string(),
        password: "wrong-password".to_string(),
        csrf_token: token.clone(),
    };
    assert_eq!(
        admin_login_submit(app.directory(), &mut store, sid, &wrong_password),
        Err(AppError::AuthFailed)
    );

    let unknown_user = LoginForm {
        username: "nobody".to_string(),
        password: "hunter2secret".to_string(),
        csrf_token: token.clone(),
    };
    assert_eq!(
        admin_login_submit(app.directory(), &mut store, sid, &unknown_user),
        Err(AppError::AuthFailed)
    );

    let bad_token = LoginForm {
        username: "root".to_string(),
        password: "hunter2secret".to_string(),
        csrf_token: "forged".to_string(),
    };
    assert_eq!(
        admin_login_submit(app.directory(), &mut store, sid, &bad_token),
        Err(AppError::ValidationFailed)
    );

    // a session the store never issued
    assert_eq!(
        admin_login_submit(app.directory(), &mut store, 999, &wrong_password),
        Err(AppError::NotFound)
    );

    // the failed attempts did not bind anything or rotate the id
    assert!(AdminUser::from_session(store.session(sid).unwrap()).is_none());
}

#[test]
fn store_logout_clears_one_kind_only() {
    let mut store = SessionStore::new();
    let sid = store.create_session().unwrap();
    {
        let mut s = store.session(sid).unwrap().clone();
        AuthUser::new(1, "u".to_string()).login(&mut s);
        AdminUser::new(2, "a".to_string()).login(&mut s);
        assert!(store.put_session(sid, s));
    }

    assert!(admin_logout(&mut store, sid));
    let s = store.session(sid).unwrap();
    assert!(AdminUser::from_session(s).is_none());
    assert!(AuthUser::from_session(s).is_some());

    assert!(logout(&mut store, sid));
    let s = store.session(sid).unwrap();
    assert!(AuthUser::from_session(s).is_none());

    assert!(!admin_logout(&mut store, 777));
}

fn csrf_session() -> (Session, String) {
    let mut session = Session::new();
    let token = ensure_csrf_token(&mut session);
    (session, token)
}

#[test]
fn country_form_requires_csrf_and_name() {
    let mut app = AppState::new();
    let (session, token) = csrf_session();

    let forged = CountryForm { name: "Ghana".to_string(), csrf_token: "forged".to_string() };
    assert_eq!(
        admin_country_create_submit(&mut app, &session, &forged),
        Err(AppError::ValidationFailed)
    );

    let empty = CountryForm { name: String::new(), csrf_token: token.clone() };
    assert_eq!(
        admin_country_create_submit(&mut app, &session, &empty),
        Err(AppError::ValidationFailed)
    );

    let good = CountryForm { name: "Ghana".to_string(), csrf_token: token.clone() };
    assert_eq!(admin_country_create_submit(&mut app, &session, &good), Ok(1));

    // deletion is CSRF-gated too
    let forged_only = CsrfOnlyForm { csrf_token: "forged".to_string() };
    assert_eq!(
        admin_country_delete(&mut app, 1, &session, &forged_only),
        Err(AppError::ValidationFailed)
    );
    let ok_only = CsrfOnlyForm { csrf_token: token };
    assert_eq!(admin_country_delete(&mut app, 1, &session, &ok_only), Ok(()));
}

fn create_user_form(token: &str) -> CreateUserForm {
    CreateUserForm {
        username: "dana".to_string(),
        email: "dana@example.com".to_string(),
        password: "secret99".to_string(),
        address: "5 Hill St".to_string(),
        country_id: 1,
        state_id: 1,
        csrf_token: token.to_string(),
    }
}

#[test]
fn user_lifecycle_through_the_flows() {
    let mut app = AppState::new();
    let (session, token) = csrf_session();

    let country_form = CountryForm { name: "Malaysia".to_string(), csrf_token: token.clone() };
    admin_country_create_submit(&mut app, &session, &country_form).unwrap();
    let state_form = admin_core::models::StateForm {
        country_id: 1,
        name: "Selangor".to_string(),
        csrf_token: token.clone(),
    };
    admin_core::controllers::admin_state_create_submit(&mut app, &session, &state_form).unwrap();

    // an invalid email fails validation before anything is stored
    let mut bad_email = create_user_form(&token);
    bad_email.email = "not-an-email".to_string();
    assert_eq!(
        user_create_submit(&mut app, &session, &bad_email, T0),
        Err(AppError::ValidationFailed)
    );

    let uid = user_create_submit(&mut app, &session, &create_user_form(&token), T0).unwrap();

    // a duplicate email is a conflict
    let mut dup = create_user_form(&token);
    dup.username = "other".to_string();
    assert_eq!(
        user_create_submit(&mut app, &session, &dup, T0),
        Err(AppError::Conflict)
    );

    // the detail view joins the reference names
    let view = user_detail(&app, uid).unwrap();
    assert_eq!(view.name, "dana");
    assert_eq!(view.country.as_deref(), Some("Malaysia"));
    assert_eq!(view.state.as_deref(), Some("Selangor"));
    assert_eq!(user_detail(&app, 999), Err(AppError::NotFound));

    // editing with a blank password keeps the stored hash
    let old_hash = app.directory().find_user_by_id(uid).unwrap().password_hash;
    let edit = UpdateUserForm {
        username: "dana2".to_string(),
        email: "dana2@example.com".to_string(),
        address: "6 Hill St".to_string(),
        country_id: 1,
        state_id: 1,
        new_password: "   ".to_string(),
        csrf_token: token.clone(),
    };
    user_edit_submit(&mut app, uid, &session, &edit).unwrap();
    let after = app.directory().find_user_by_id(uid).unwrap();
    assert_eq!(after.username, "dana2");
    assert_eq!(after.password_hash, old_hash);

    // editing with a real password replaces the hash
    let mut with_password = edit.clone();
    with_password.new_password = "newsecret9".to_string();
    user_edit_submit(&mut app, uid, &session, &with_password).unwrap();
    let rehashed = app.directory().find_user_by_id(uid).unwrap();
    assert_ne!(rehashed.password_hash, old_hash);

    // deletion is CSRF-gated and final
    let ok_only = CsrfOnlyForm { csrf_token: token };
    user_delete(&mut app, uid, &session, &ok_only).unwrap();
    assert!(app.directory().find_user_by_id(uid).is_none());
}

#[test]
fn store_issues_a_stable_token() {
    let mut store = SessionStore::new();
    let sid = store.create_session().unwrap();
    let t1 = issue_or_get_csrf_token(&mut store, sid).unwrap();
    let t2 = issue_or_get_csrf_token(&mut store, sid).unwrap();
    assert_eq!(t1, t2);
    assert!(issue_or_get_csrf_token(&mut store, 12345).is_none());
}

#[test]
fn user_create_with_dangling_reference_is_not_found() {
    let mut app = AppState::new();
    let (session, token) = csrf_session();
    let form = create_user_form(&token);
    // country 1 and state 1 do not exist yet
    assert_eq!(
        user_create_submit(&mut app, &session, &form, T0),
        Err(AppError::NotFound)
    );
}

#[test]
fn user_edit_conflicts_and_blind_updates() {
    let mut app = AppState::new();
    let (session, token) = csrf_session();
    let country_form = CountryForm { name: "Ghana".to_string(), csrf_token: token.clone() };
    admin_core::controllers::admin_country_create_submit(&mut app, &session, &country_form)
        .unwrap();
    let state_form = admin_core::models::StateForm {
        country_id: 1,
        name: "Volta".to_string(),
        csrf_token: token.clone(),
    };
    admin_core::controllers::admin_state_create_submit(&mut app, &session, &state_form).unwrap();

    let first = user_create_submit(&mut app, &session, &create_user_form(&token), T0).unwrap();
    let mut second_form = create_user_form(&token);
    second_form.username = "erin".to_string();
    second_form.email = "erin@example.com".to_string();
    let _second = user_create_submit(&mut app, &session, &second_form, T0).unwrap();

    // taking the other account's email on edit is a conflict
    let grab_email = UpdateUserForm {
        username: "dana".to_string(),
        email: "erin@example.com".to_string(),
        address: "5 Hill St".to_string(),
        country_id: 1,
        state_id: 1,
        new_password: String::new(),
        csrf_token: token.clone(),
    };
    assert_eq!(
        user_edit_submit(&mut app, first, &session, &grab_email),
        Err(AppError::Conflict)
    );

    // editing an id that matches no row updates nothing and is not an error
    let ghost_edit = UpdateUserForm {
        username: "ghost".to_string(),
        email: "ghost@example.com".to_string(),
        address: "nowhere".to_string(),
        country_id: 1,
        state_id: 1,
        new_password: String::new(),
        csrf_token: token,
    };
    assert_eq!(user_edit_submit(&mut app, 999, &session, &ghost_edit), Ok(()));
    assert!(app.directory().find_user_by_id(999).is_none());
    assert_eq!(app.directory().get_users_count(), 2);
}
