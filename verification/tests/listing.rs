//! Listing query builder behaviour: allowlist defaulting, injection
//! safety, search semantics, pagination, and the fixed query templates.

use admin_core::api::users_datatable_api;
use admin_core::cache::AppState;
use admin_core::listing::{
    get_filtered_users_count, get_users_for_export, get_users_paginated, like_pattern,
    order_column_of, order_direction_of, users_count_sql, users_page_sql, OrderColumn,
    OrderDirection,
};
use admin_core::models::{
    DataTablesOrder, DataTablesRequest, DataTablesSearch, PaginationParams,
};
use admin_core::controllers::users_datatable_api as admin_users_datatable_api;
use admin_core::models::DatatableParams;
use admin_core::repository::Directory;

const T0: u64 = 1_000;

fn seed_users(db: &mut Directory, total: usize, smiths: usize) {
    for i in 0..total {
        let (name, email) = if i < smiths {
            (format!("smith{i}"), format!("smith{i}@example.com"))
        } else {
            (format!("user{i}"), format!("user{i}@example.com"))
        };
        db.create_user_with_hash(&name, &email, "h".to_string(), None, None, None, T0 + i as u64)
            .unwrap();
    }
}

fn params(
    offset: i64,
    limit: i64,
    search: Option<&str>,
    column: &str,
    direction: &str,
) -> PaginationParams {
    PaginationParams {
        offset,
        limit,
        search: search.map(|s| s.to_string()),
        order_column: column.to_string(),
        order_direction: direction.to_string(),
    }
}

#[test]
fn scenario_paginated_search() {
    let mut db = Directory::new();
    seed_users(&mut db, 25, 3);

    let search = Some("smith".to_string());
    assert_eq!(db.get_users_count(), 25);
    assert_eq!(get_filtered_users_count(&db, &search), 3);

    let rows = get_users_paginated(&db, &params(0, 10, Some("smith"), "id", "asc"));
    assert_eq!(rows.len(), 3);
    assert!(rows
        .iter()
        .all(|u| u.username.contains("smith") || u.email.contains("smith")));

    // a tighter limit returns a prefix of the matches
    let two = get_users_paginated(&db, &params(0, 2, Some("smith"), "id", "asc"));
    assert_eq!(two.len(), 2);
    assert!(two
        .iter()
        .all(|u| u.username.contains("smith") || u.email.contains("smith")));
}

#[test]
fn search_is_case_insensitive_substring() {
    let mut db = Directory::new();
    db.create_user_with_hash("Alice Smith", "alice@example.com", "h".to_string(), None, None, None, T0)
        .unwrap();
    db.create_user_with_hash("bob", "bob@SMITHMAIL.example", "h".to_string(), None, None, None, T0)
        .unwrap();
    db.create_user_with_hash("carol", "carol@example.com", "h".to_string(), None, None, None, T0)
        .unwrap();

    assert_eq!(get_filtered_users_count(&db, &Some("SMITH".to_string())), 2);
    assert_eq!(get_filtered_users_count(&db, &Some("smith".to_string())), 2);
    // an empty search is inactive
    assert_eq!(get_filtered_users_count(&db, &Some(String::new())), 3);
    assert_eq!(get_filtered_users_count(&db, &None), 3);
}

#[test]
fn sql_metacharacters_match_literally() {
    let mut db = Directory::new();
    seed_users(&mut db, 5, 0);

    for evil in ["' OR '1'='1", "%", "--", "\"; DROP TABLE users; --"] {
        assert_eq!(
            get_filtered_users_count(&db, &Some(evil.to_string())),
            0,
            "metacharacter search {evil:?} must match nothing"
        );
        let rows = get_users_paginated(&db, &params(0, 10, Some(evil), "id", "desc"));
        assert!(rows.is_empty());
    }

    // a user whose name really holds a metacharacter is found literally
    db.create_user_with_hash("o'brien", "ob@example.com", "h".to_string(), None, None, None, T0)
        .unwrap();
    assert_eq!(get_filtered_users_count(&db, &Some("o'b".to_string())), 1);
    assert_eq!(get_filtered_users_count(&db, &Some("%".to_string())), 0);
}

#[test]
fn order_allowlist_defaults() {
    assert_eq!(order_column_of("id"), OrderColumn::Id);
    assert_eq!(order_column_of("username"), OrderColumn::Username);
    assert_eq!(order_column_of("email"), OrderColumn::Email);
    assert_eq!(order_column_of("created_at"), OrderColumn::CreatedAt);
    // anything else silently becomes the default column
    assert_eq!(order_column_of("password_hash"), OrderColumn::Id);
    assert_eq!(order_column_of("id; DROP TABLE users"), OrderColumn::Id);
    assert_eq!(order_column_of(""), OrderColumn::Id);

    assert_eq!(order_direction_of("asc"), OrderDirection::Asc);
    assert_eq!(order_direction_of("ASC"), OrderDirection::Asc);
    assert_eq!(order_direction_of("desc"), OrderDirection::Desc);
    assert_eq!(order_direction_of("DESC"), OrderDirection::Desc);
    assert_eq!(order_direction_of("sideways"), OrderDirection::Desc);
}

#[test]
fn unknown_column_orders_as_id() {
    let mut db = Directory::new();
    seed_users(&mut db, 4, 0);

    let by_bogus = get_users_paginated(&db, &params(0, 10, None, "bogus", "desc"));
    let by_id = get_users_paginated(&db, &params(0, 10, None, "id", "desc"));
    let bogus_ids: Vec<i32> = by_bogus.iter().map(|u| u.id).collect();
    let id_ids: Vec<i32> = by_id.iter().map(|u| u.id).collect();
    assert_eq!(bogus_ids, id_ids);
    assert_eq!(id_ids, vec![4, 3, 2, 1]);
}

#[test]
fn sorting_by_each_column() {
    let mut db = Directory::new();
    db.create_user_with_hash("charlie", "zz@example.com", "h".to_string(), None, None, None, 30)
        .unwrap();
    db.create_user_with_hash("alice", "mm@example.com", "h".to_string(), None, None, None, 10)
        .unwrap();
    db.create_user_with_hash("bob", "aa@example.com", "h".to_string(), None, None, None, 20)
        .unwrap();

    let by_name = get_users_paginated(&db, &params(0, 10, None, "username", "asc"));
    let names: Vec<&str> = by_name.iter().map(|u| u.username.as_str()).collect();
    assert_eq!(names, vec!["alice", "bob", "charlie"]);

    let by_email = get_users_paginated(&db, &params(0, 10, None, "email", "asc"));
    let emails: Vec<&str> = by_email.iter().map(|u| u.email.as_str()).collect();
    assert_eq!(emails, vec!["aa@example.com", "mm@example.com", "zz@example.com"]);

    let by_created = get_users_paginated(&db, &params(0, 10, None, "created_at", "desc"));
    let stamps: Vec<u64> = by_created.iter().map(|u| u.created_at).collect();
    assert_eq!(stamps, vec![30, 20, 10]);
}

#[test]
fn pagination_windows_and_defaults() {
    let mut db = Directory::new();
    seed_users(&mut db, 25, 0);

    // an offset window in the middle
    let page = get_users_paginated(&db, &params(10, 5, None, "id", "asc"));
    let ids: Vec<i32> = page.iter().map(|u| u.id).collect();
    assert_eq!(ids, vec![11, 12, 13, 14, 15]);

    // beyond the end: empty
    assert!(get_users_paginated(&db, &params(100, 5, None, "id", "asc")).is_empty());

    // a non-positive limit falls back to the default page of ten
    assert_eq!(get_users_paginated(&db, &params(0, 0, None, "id", "asc")).len(), 10);
    // a negative offset counts as zero
    let neg = get_users_paginated(&db, &params(-7, 3, None, "id", "asc"));
    let ids: Vec<i32> = neg.iter().map(|u| u.id).collect();
    assert_eq!(ids, vec![1, 2, 3]);
}

#[test]
fn export_returns_all_matches_sorted() {
    let mut db = Directory::new();
    seed_users(&mut db, 12, 4);
    let rows = get_users_for_export(&db, &Some("smith".to_string()), "username", "asc");
    assert_eq!(rows.len(), 4);
    let names: Vec<&str> = rows.iter().map(|u| u.username.as_str()).collect();
    assert_eq!(names, vec!["smith0", "smith1", "smith2", "smith3"]);
}

#[test]
fn query_templates_are_fixed_text() {
    let page = users_page_sql(OrderColumn::Username, OrderDirection::Asc, true);
    assert_eq!(
        page,
        "SELECT id, username, email, password_hash, created_at, address, country_id, state_id \
         FROM users WHERE username LIKE ? OR email LIKE ? ORDER BY username ASC LIMIT ? OFFSET ?"
    );
    let page_plain = users_page_sql(OrderColumn::Id, OrderDirection::Desc, false);
    assert_eq!(
        page_plain,
        "SELECT id, username, email, password_hash, created_at, address, country_id, state_id \
         FROM users ORDER BY id DESC LIMIT ? OFFSET ?"
    );
    assert_eq!(users_count_sql(false), "SELECT COUNT(*) as count FROM users");
    assert_eq!(
        users_count_sql(true),
        "SELECT COUNT(*) as count FROM users WHERE username LIKE ? OR email LIKE ?"
    );
    // the search text never reaches the template; it becomes a bound value
    assert_eq!(like_pattern("' OR '1'='1"), "%' OR '1'='1%");
}

#[test]
fn datatable_endpoint_counts_and_rows() {
    let mut app = AppState::new();
    for i in 0..25u64 {
        let (name, email) = if i < 3 {
            (format!("smith{i}"), format!("smith{i}@example.com"))
        } else {
            (format!("user{i}"), format!("user{i}@example.com"))
        };
        app.create_user_with_hash(&name, &email, "h".to_string(), None, None, None, 1_700_000_000 + i)
            .unwrap();
    }

    let request = DataTablesRequest {
        draw: 7,
        start: 0,
        length: 10,
        search: DataTablesSearch { value: "  smith  ".to_string() },
        order: vec![DataTablesOrder { column: 0, dir: "asc".to_string() }],
    };
    let resp = users_datatable_api(&app, &request);
    assert_eq!(resp.draw, 7);
    assert_eq!(resp.records_total, 25);
    assert_eq!(resp.records_filtered, 3);
    assert_eq!(resp.data.len(), 3);
    assert!(resp.data.iter().all(|r| r.username.contains("smith")));
    // timestamps render in decimal
    assert_eq!(resp.data[0].created_at, "1700000000");
}

#[test]
fn admin_datatable_counts_and_page() {
    let mut app = AppState::new();
    for i in 0..15u64 {
        app.create_user_with_hash(
            &format!("member{i}"),
            &format!("member{i}@example.com"),
            "h".to_string(),
            None,
            None,
            None,
            T0 + i,
        )
        .unwrap();
    }

    let resp = admin_users_datatable_api(
        &app,
        &DatatableParams {
            draw: 3,
            start: Some(0),
            length: Some(10),
            search_value: None,
            order_column: Some(0),
            order_dir: Some("asc".to_string()),
        },
    );
    assert_eq!(resp.draw, 3);
    assert_eq!(resp.records_total, 15);
    // the filtered total comes from its own count query, not the page size
    assert_eq!(resp.records_filtered, 15);
    assert_eq!(resp.data.len(), 10);
    let ids: Vec<i32> = resp.data.iter().map(|u| u.id).collect();
    assert_eq!(ids, vec![1, 2, 3, 4, 5, 6, 7, 8, 9, 10]);
}

#[test]
fn listing_is_deterministic_under_key_ties() {
    let mut db = Directory::new();
    // three accounts sharing one timestamp: the sort key alone cannot
    // order them
    for name in ["cora", "abel", "bria"] {
        db.create_user_with_hash(
            name,
            &format!("{name}@example.com"),
            "h".to_string(),
            None,
            None,
            None,
            500,
        )
        .unwrap();
    }

    let by_created_asc = get_users_paginated(&db, &params(0, 10, None, "created_at", "asc"));
    let again = get_users_paginated(&db, &params(0, 10, None, "created_at", "asc"));
    let ids: Vec<i32> = by_created_asc.iter().map(|u| u.id).collect();
    let ids_again: Vec<i32> = again.iter().map(|u| u.id).collect();
    assert_eq!(ids, ids_again);
    // ties resolve by row id in stored order
    assert_eq!(ids, vec![1, 2, 3]);

    // the tie-break is not flipped with the direction
    let by_created_desc = get_users_paginated(&db, &params(0, 10, None, "created_at", "desc"));
    let ids_desc: Vec<i32> = by_created_desc.iter().map(|u| u.id).collect();
    assert_eq!(ids_desc, vec![1, 2, 3]);
}

#[test]
fn absent_and_empty_search_page_identically() {
    let mut db = Directory::new();
    seed_users(&mut db, 6, 2);
    let with_none = get_users_paginated(&db, &params(0, 10, None, "username", "asc"));
    let with_empty = get_users_paginated(&db, &params(0, 10, Some(""), "username", "asc"));
    let a: Vec<(i32, &str)> = with_none.iter().map(|u| (u.id, u.username.as_str())).collect();
    let b: Vec<(i32, &str)> = with_empty.iter().map(|u| (u.id, u.username.as_str())).collect();
    assert_eq!(a, b);
}
