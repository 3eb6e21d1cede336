//! Reference-data cache behaviour: serving, TTL, write-through
//! invalidation, and the referential delete guards.

use admin_core::cache::{
    create_country_invalidating, create_state_invalidating, delete_country_guarded,
    delete_state_guarded, get_countries_cached, get_states_cached, update_country_invalidating,
    update_state_invalidating, AppState,
};
use admin_core::controllers::admin_states_list;
use admin_core::AppError;

const T0: u64 = 1_000;

#[test]
fn scenario_country_state_lifecycle() {
    let mut app = AppState::new();

    let country_id = create_country_invalidating(&mut app, "Malaysia").unwrap();
    assert_eq!(country_id, 1);

    let countries = get_countries_cached(&mut app, T0);
    assert_eq!(countries.len(), 1);
    assert_eq!(countries[0].id, 1);
    assert_eq!(countries[0].name, "Malaysia");

    let state_id = create_state_invalidating(&mut app, 1, "Selangor").unwrap();
    assert_eq!(state_id, 1);

    // the country now has a dependent state: deletion must refuse
    assert_eq!(delete_country_guarded(&mut app, 1), Err(AppError::Conflict));
    let still_there = get_countries_cached(&mut app, T0);
    assert_eq!(still_there.len(), 1);
    assert_eq!(still_there[0].name, "Malaysia");

    // delete the state first, then the country goes
    delete_state_guarded(&mut app, 1).unwrap();
    delete_country_guarded(&mut app, 1).unwrap();
    let countries = get_countries_cached(&mut app, T0);
    assert!(countries.is_empty());
}

#[test]
fn cache_reflects_mutation_after_invalidation() {
    let mut app = AppState::new();
    create_country_invalidating(&mut app, "Japan").unwrap();

    // populate the cache, then mutate: the mutation invalidates, so the
    // next read must reflect it even at the same instant
    let before = get_countries_cached(&mut app, T0);
    assert_eq!(before[0].name, "Japan");
    update_country_invalidating(&mut app, 1, "Nippon").unwrap();
    let after = get_countries_cached(&mut app, T0);
    assert_eq!(after.len(), 1);
    assert_eq!(after[0].name, "Nippon");
}

#[test]
fn cache_entry_expires_after_ttl() {
    let mut app = AppState::new();
    create_country_invalidating(&mut app, "Kenya").unwrap();

    get_countries_cached(&mut app, T0);
    assert_eq!(app.countries_cache_expiry(), Some(T0 + 300));

    // a read inside the window serves the entry and leaves it alone
    get_countries_cached(&mut app, T0 + 299);
    assert_eq!(app.countries_cache_expiry(), Some(T0 + 300));

    // at the expiry instant the entry is not served: a fresh fetch
    // repopulates with a new window
    get_countries_cached(&mut app, T0 + 300);
    assert_eq!(app.countries_cache_expiry(), Some(T0 + 600));
}

#[test]
fn states_cache_serves_per_country_lists() {
    let mut app = AppState::new();
    let my = create_country_invalidating(&mut app, "Malaysia").unwrap();
    let sg = create_country_invalidating(&mut app, "Singapore").unwrap();
    create_state_invalidating(&mut app, my, "Selangor").unwrap();
    create_state_invalidating(&mut app, my, "Johor").unwrap();

    let my_states = get_states_cached(&mut app, my, T0);
    assert_eq!(my_states.len(), 2);
    // stored in name order
    assert_eq!(my_states[0].name, "Johor");
    assert_eq!(my_states[1].name, "Selangor");
    assert!(my_states.iter().all(|s| s.country_id == my));

    let sg_states = get_states_cached(&mut app, sg, T0);
    assert!(sg_states.is_empty());

    // a second read within the window is a cache hit: the entry keeps its
    // expiry, which also shows the payload decoded rather than refetched
    assert_eq!(app.states_cache_expiry(my), Some(T0 + 300));
    let again = get_states_cached(&mut app, my, T0 + 10);
    assert_eq!(app.states_cache_expiry(my), Some(T0 + 300));
    assert_eq!(again.len(), 2);
    assert_eq!(again[0].name, "Johor");
}

#[test]
fn state_mutations_invalidate_states_cache() {
    let mut app = AppState::new();
    let c = create_country_invalidating(&mut app, "Chile").unwrap();
    let s = create_state_invalidating(&mut app, c, "Valparaiso").unwrap();

    let before = get_states_cached(&mut app, c, T0);
    assert_eq!(before.len(), 1);
    assert_eq!(before[0].name, "Valparaiso");

    update_state_invalidating(&mut app, s, c, "Santiago").unwrap();
    let after = get_states_cached(&mut app, c, T0);
    assert_eq!(after.len(), 1);
    assert_eq!(after[0].name, "Santiago");
}

#[test]
fn countries_are_listed_in_name_order() {
    let mut app = AppState::new();
    create_country_invalidating(&mut app, "Brazil").unwrap();
    create_country_invalidating(&mut app, "Argentina").unwrap();
    create_country_invalidating(&mut app, "Colombia").unwrap();

    let countries = get_countries_cached(&mut app, T0);
    let names: Vec<&str> = countries.iter().map(|c| c.name.as_str()).collect();
    assert_eq!(names, vec!["Argentina", "Brazil", "Colombia"]);
}

#[test]
fn duplicate_country_name_is_a_conflict() {
    let mut app = AppState::new();
    create_country_invalidating(&mut app, "Peru").unwrap();
    assert_eq!(
        create_country_invalidating(&mut app, "Peru"),
        Err(AppError::Conflict)
    );
    // renaming one country onto another's name is refused too
    create_country_invalidating(&mut app, "Bolivia").unwrap();
    assert_eq!(
        update_country_invalidating(&mut app, 2, "Peru"),
        Err(AppError::Conflict)
    );
    // renaming onto its own name is fine
    update_country_invalidating(&mut app, 1, "Peru").unwrap();
}

#[test]
fn state_under_missing_country_is_not_found() {
    let mut app = AppState::new();
    assert_eq!(
        create_state_invalidating(&mut app, 99, "Nowhere"),
        Err(AppError::NotFound)
    );
}

#[test]
fn delete_state_with_dependent_account_is_a_conflict() {
    let mut app = AppState::new();
    let c = create_country_invalidating(&mut app, "India").unwrap();
    let s = create_state_invalidating(&mut app, c, "Kerala").unwrap();
    app.create_user_with_hash(
        "asha",
        "asha@example.com",
        "not-a-real-hash".to_string(),
        Some("12 Beach Rd".to_string()),
        Some(c),
        Some(s),
        T0,
    )
    .unwrap();

    assert_eq!(delete_state_guarded(&mut app, s), Err(AppError::Conflict));
    // the country is blocked twice over: by its state and by the account
    assert_eq!(delete_country_guarded(&mut app, c), Err(AppError::Conflict));
}

#[test]
fn error_messages_name_each_kind() {
    assert_eq!(AppError::NotFound.message(), "not found");
    assert_eq!(AppError::Conflict.message(), "conflict");
    assert_eq!(AppError::ValidationFailed.message(), "validation failed");
    assert_eq!(AppError::AuthFailed.message(), "authentication failed");
    assert_eq!(AppError::Unavailable.message(), "unavailable");
}

#[test]
fn joined_states_listing_groups_by_country_name() {
    let mut app = AppState::new();
    let b = create_country_invalidating(&mut app, "Brazil").unwrap();
    let a = create_country_invalidating(&mut app, "Argentina").unwrap();
    create_state_invalidating(&mut app, b, "Sao Paulo").unwrap();
    create_state_invalidating(&mut app, b, "Bahia").unwrap();
    create_state_invalidating(&mut app, a, "Mendoza").unwrap();

    let rows = admin_states_list(&app);
    let pairs: Vec<(String, String)> = rows
        .iter()
        .map(|r| (r.country_name.clone(), r.name.clone()))
        .collect();
    assert_eq!(
        pairs,
        vec![
            ("Argentina".to_string(), "Mendoza".to_string()),
            ("Brazil".to_string(), "Bahia".to_string()),
            ("Brazil".to_string(), "Sao Paulo".to_string()),
        ]
    );
}
