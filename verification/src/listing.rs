//! The listing query builder: allowlisted ordering, case-insensitive
//! substring search, pagination, and the fixed set of parameterized query
//! templates handed to a relational store. Caller-supplied column and
//! direction names are mapped onto closed enums — anything outside the
//! allowlist silently becomes the default — and search text only ever
//! travels as a bound parameter, never inside query text.

use vstd::prelude::*;
use vstd::multiset::Multiset;
use vstd::string::StringExecFns;
use crate::models::{PaginationParams, User};
use crate::repository::{Directory, unique_user_ids};
use crate::text::{contains_ci, seq_le, str_contains_ci, str_eq, str_le};
use crate::text::{lemma_seq_le_antisymmetric, lemma_seq_le_refl, lemma_seq_le_total, lemma_seq_le_trans};

verus! {

#[derive(Debug, Clone, Copy, PartialEq, Eq, Structural)]
pub enum OrderColumn {
    Id,
    Username,
    Email,
    CreatedAt,
}

#[derive(Debug, Clone, Copy, PartialEq, Eq, Structural)]
pub enum OrderDirection {
    Asc,
    Desc,
}

/// The column allowlist: the four sortable names map to themselves, every
/// other string falls back to the id column.
pub open spec fn spec_order_column(s: Seq<char>) -> OrderColumn {
    if s == "username"@ {
        OrderColumn::Username
    } else if s == "email"@ {
        OrderColumn::Email
    } else if s == "created_at"@ {
        OrderColumn::CreatedAt
    } else {
        OrderColumn::Id
    }
}

/// The direction allowlist: both spellings of ascending map to `Asc`,
/// everything else falls back to descending.
pub open spec fn spec_order_direction(s: Seq<char>) -> OrderDirection {
    if s == "asc"@ || s == "ASC"@ {
        OrderDirection::Asc
    } else {
        OrderDirection::Desc
    }
}

pub fn order_column_of(s: &str) -> (r: OrderColumn)
    ensures
        r == spec_order_column(s@),
{
    if str_eq(s, "username") {
        OrderColumn::Username
    } else if str_eq(s, "email") {
        OrderColumn::Email
    } else if str_eq(s, "created_at") {
        OrderColumn::CreatedAt
    } else {
        OrderColumn::Id
    }
}

pub fn order_direction_of(s: &str) -> (r: OrderDirection)
    ensures
        r == spec_order_direction(s@),
{
    if str_eq(s, "asc") || str_eq(s, "ASC") {
        OrderDirection::Asc
    } else {
        OrderDirection::Desc
    }
}


/// Allowlist defaulting: a column name outside the allowlist is never
/// rejected and never passed through — it orders exactly as the default
/// column does; a direction outside the allowlist orders as descending.
pub proof fn lemma_order_allowlist(col: Seq<char>, dir: Seq<char>)
    ensures
        col != "username"@ && col != "email"@ && col != "created_at"@ ==> spec_order_column(col)
            == OrderColumn::Id,
        dir != "asc"@ && dir != "ASC"@ ==> spec_order_direction(dir) == OrderDirection::Desc,
{
}

// ---------------------------------------------------------------------------
// Query templates: a closed set of texts assembled from fixed literals.
// The search text is never part of them; it travels as a bound parameter.

pub open spec fn spec_column_sql(col: OrderColumn) -> Seq<char> {
    match col {
        OrderColumn::Id => "id"@,
        OrderColumn::Username => "username"@,
        OrderColumn::Email => "email"@,
        OrderColumn::CreatedAt => "created_at"@,
    }
}

pub open spec fn spec_direction_sql(dir: OrderDirection) -> Seq<char> {
    match dir {
        OrderDirection::Asc => "ASC"@,
        OrderDirection::Desc => "DESC"@,
    }
}

pub open spec fn spec_users_select_base() -> Seq<char> {
    "SELECT id, username, email, password_hash, created_at, address, country_id, state_id FROM users"@
}

pub open spec fn spec_users_search_clause() -> Seq<char> {
    " WHERE username LIKE ? OR email LIKE ?"@
}

/// The page query template, a function of the allowlisted enums and of
/// whether a search is active — of nothing else.
pub open spec fn spec_users_page_sql(
    col: OrderColumn,
    dir: OrderDirection,
    with_search: bool,
) -> Seq<char> {
    spec_users_select_base() + (if with_search {
        spec_users_search_clause()
    } else {
        Seq::<char>::empty()
    }) + " ORDER BY "@ + spec_column_sql(col) + " "@ + spec_direction_sql(dir)
        + " LIMIT ? OFFSET ?"@
}

/// The export query template: the page template without the page window.
pub open spec fn spec_users_export_sql(
    col: OrderColumn,
    dir: OrderDirection,
    with_search: bool,
) -> Seq<char> {
    spec_users_select_base() + (if with_search {
        spec_users_search_clause()
    } else {
        Seq::<char>::empty()
    }) + " ORDER BY "@ + spec_column_sql(col) + " "@ + spec_direction_sql(dir)
}

/// The count query template, a function of the search flag alone.
pub open spec fn spec_users_count_sql(with_search: bool) -> Seq<char> {
    "SELECT COUNT(*) as count FROM users"@ + (if with_search {
        spec_users_search_clause()
    } else {
        Seq::<char>::empty()
    })
}

fn column_sql(col: OrderColumn) -> (r: &'static str)
    ensures
        r@ == spec_column_sql(col),
{
    match col {
        OrderColumn::Id => "id",
        OrderColumn::Username => "username",
        OrderColumn::Email => "email",
        OrderColumn::CreatedAt => "created_at",
    }
}

fn direction_sql(dir: OrderDirection) -> (r: &'static str)
    ensures
        r@ == spec_direction_sql(dir),
{
    match dir {
        OrderDirection::Asc => "ASC",
        OrderDirection::Desc => "DESC",
    }
}

/// Builds the page query text from fixed literals.
pub fn users_page_sql(col: OrderColumn, dir: OrderDirection, with_search: bool) -> (r: String)
    ensures
        r@ == spec_users_page_sql(col, dir, with_search),
{
    let mut s = String::from_str(
        "SELECT id, username, email, password_hash, created_at, address, country_id, state_id FROM users",
    );
    if with_search {
        s.append(" WHERE username LIKE ? OR email LIKE ?");
    }
    s.append(" ORDER BY ");
    s.append(column_sql(col));
    s.append(" ");
    s.append(direction_sql(dir));
    s.append(" LIMIT ? OFFSET ?");
    s
}

/// Builds the export query text from fixed literals.
pub fn users_export_sql(col: OrderColumn, dir: OrderDirection, with_search: bool) -> (r: String)
    ensures
        r@ == spec_users_export_sql(col, dir, with_search),
{
    let mut s = String::from_str(
        "SELECT id, username, email, password_hash, created_at, address, country_id, state_id FROM users",
    );
    if with_search {
        s.append(" WHERE username LIKE ? OR email LIKE ?");
    }
    s.append(" ORDER BY ");
    s.append(column_sql(col));
    s.append(" ");
    s.append(direction_sql(dir));
    s
}

/// Builds the count query text from fixed literals.
pub fn users_count_sql(with_search: bool) -> (r: String)
    ensures
        r@ == spec_users_count_sql(with_search),
{
    let mut s = String::from_str("SELECT COUNT(*) as count FROM users");
    if with_search {
        s.append(" WHERE username LIKE ? OR email LIKE ?");
    }
    s
}

/// The bound parameter for a substring search: the text wrapped in wildcard
/// markers, handed to the store as a value, never interpolated.
pub fn like_pattern(search: &str) -> (r: String)
    ensures
        r@ == "%"@ + search@ + "%"@,
{
    let mut s = String::from_str("%");
    s.append(search);
    s.append("%");
    s
}

// ---------------------------------------------------------------------------
// The listing semantics over the directory's account table.

/// An account matches a search when the folded needle occurs in its
/// username or its email.
pub open spec fn user_matches(u: User, needle: Seq<char>) -> bool {
    contains_ci(u.username@, needle) || contains_ci(u.email@, needle)
}

pub open spec fn match_pred(needle: Seq<char>) -> spec_fn(User) -> bool {
    |u: User| user_matches(u, needle)
}

/// A search parameter as plain values.
pub open spec fn opt_view(search: Option<String>) -> Option<Seq<char>> {
    match search {
        Some(s) => Some(s@),
        None => None,
    }
}

/// Whether a search is active: present and non-empty.
pub open spec fn search_active_v(search: Option<Seq<char>>) -> bool {
    search matches Some(s) && s.len() > 0
}

/// The rows a search leaves over, in stored order, over plain values.
pub open spec fn spec_filtered_users_v(us: Seq<User>, search: Option<Seq<char>>) -> Seq<User> {
    if search_active_v(search) {
        us.filter(match_pred(search->0))
    } else {
        us
    }
}

/// The rows a search leaves over, in stored order.
pub open spec fn spec_filtered_users(us: Seq<User>, search: Option<String>) -> Seq<User> {
    spec_filtered_users_v(us, opt_view(search))
}

/// Keeps the accounts matching the needle, in order.
fn filter_users_by(us: &Vec<User>, needle: &str) -> (r: Vec<User>)
    ensures
        r@ == us@.filter(match_pred(needle@)),
{
    let n = us.len();
    let mut out: Vec<User> = Vec::new();
    let mut i: usize = 0;
    let ghost pred = match_pred(needle@);
    while i < n
        invariant
            n == us@.len(),
            i <= n,
            pred == match_pred(needle@),
            out@ == us@.take(i as int).filter(pred),
        decreases n - i,
    {
        proof {
            crate::repository::lemma_filter_take_step(us@, pred, i as int);
        }
        if str_contains_ci(us[i].username.as_str(), needle) || str_contains_ci(
            us[i].email.as_str(),
            needle,
        ) {
            out.push(us[i].clone());
        }
        i += 1;
    }
    proof {
        assert(us@.take(n as int) =~= us@);
    }
    out
}

// ---------------------------------------------------------------------------
// Ordering of account rows.

/// The key order for one allowlisted column.
pub open spec fn key_le(col: OrderColumn, a: User, b: User) -> bool {
    match col {
        OrderColumn::Id => a.id <= b.id,
        OrderColumn::Username => seq_le(a.username@, b.username@),
        OrderColumn::Email => seq_le(a.email@, b.email@),
        OrderColumn::CreatedAt => a.created_at <= b.created_at,
    }
}

/// Two rows with the same key for one allowlisted column.
pub open spec fn key_eq(col: OrderColumn, a: User, b: User) -> bool {
    match col {
        OrderColumn::Id => a.id == b.id,
        OrderColumn::Username => a.username@ == b.username@,
        OrderColumn::Email => a.email@ == b.email@,
        OrderColumn::CreatedAt => a.created_at == b.created_at,
    }
}

/// The requested row order: the key order, flipped for descending, with
/// key ties broken by the row id in stored order. The tie-break makes the
/// sorted arrangement of any id-distinct row set unique, so the listing
/// is deterministic: two calls over unchanged data return the same rows
/// in the same order.
pub open spec fn user_le(col: OrderColumn, dir: OrderDirection, a: User, b: User) -> bool {
    if key_eq(col, a, b) {
        a.id <= b.id
    } else {
        match dir {
            OrderDirection::Asc => key_le(col, a, b),
            OrderDirection::Desc => key_le(col, b, a),
        }
    }
}

/// Rows sorted as requested.
pub open spec fn sorted_users(s: Seq<User>, col: OrderColumn, dir: OrderDirection) -> bool {
    forall|i: int, j: int| 0 <= i < j < s.len() ==> user_le(col, dir, s[i], s[j])
}

proof fn lemma_key_le_total(col: OrderColumn, a: User, b: User)
    ensures
        key_le(col, a, b) || key_le(col, b, a),
{
    match col {
        OrderColumn::Username => lemma_seq_le_total(a.username@, b.username@),
        OrderColumn::Email => lemma_seq_le_total(a.email@, b.email@),
        _ => {},
    }
}

proof fn lemma_key_le_trans(col: OrderColumn, a: User, b: User, c: User)
    requires
        key_le(col, a, b),
        key_le(col, b, c),
    ensures
        key_le(col, a, c),
{
    match col {
        OrderColumn::Username => lemma_seq_le_trans(a.username@, b.username@, c.username@),
        OrderColumn::Email => lemma_seq_le_trans(a.email@, b.email@, c.email@),
        _ => {},
    }
}

proof fn lemma_key_eq_le(col: OrderColumn, a: User, b: User)
    requires
        key_eq(col, a, b),
    ensures
        key_le(col, a, b),
        key_le(col, b, a),
{
    match col {
        OrderColumn::Username => lemma_seq_le_refl(a.username@),
        OrderColumn::Email => lemma_seq_le_refl(a.email@),
        _ => {},
    }
}

proof fn lemma_key_le_antisym(col: OrderColumn, a: User, b: User)
    requires
        key_le(col, a, b),
        key_le(col, b, a),
    ensures
        key_eq(col, a, b),
{
    match col {
        OrderColumn::Username => lemma_seq_le_antisymmetric(a.username@, b.username@),
        OrderColumn::Email => lemma_seq_le_antisymmetric(a.email@, b.email@),
        _ => {},
    }
}

proof fn lemma_user_le_total(col: OrderColumn, dir: OrderDirection, a: User, b: User)
    ensures
        user_le(col, dir, a, b) || user_le(col, dir, b, a),
{
    if key_eq(col, a, b) {
    } else {
        lemma_key_le_total(col, a, b);
    }
}

proof fn lemma_user_le_trans(col: OrderColumn, dir: OrderDirection, a: User, b: User, c: User)
    requires
        user_le(col, dir, a, b),
        user_le(col, dir, b, c),
    ensures
        user_le(col, dir, a, c),
{
    if key_eq(col, a, b) && key_eq(col, b, c) {
        assert(key_eq(col, a, c));
    } else if key_eq(col, a, b) {
        lemma_key_eq_le(col, a, b);
        if key_eq(col, a, c) {
            assert(key_eq(col, b, c));
        }
        match dir {
            OrderDirection::Asc => lemma_key_le_trans(col, a, b, c),
            OrderDirection::Desc => lemma_key_le_trans(col, c, b, a),
        }
    } else if key_eq(col, b, c) {
        lemma_key_eq_le(col, b, c);
        if key_eq(col, a, c) {
            assert(key_eq(col, a, b));
        }
        match dir {
            OrderDirection::Asc => lemma_key_le_trans(col, a, b, c),
            OrderDirection::Desc => lemma_key_le_trans(col, c, b, a),
        }
    } else {
        match dir {
            OrderDirection::Asc => {
                lemma_key_le_trans(col, a, b, c);
                if key_eq(col, a, c) {
                    lemma_key_eq_le(col, a, c);
                    lemma_key_le_trans(col, b, c, a);
                    lemma_key_le_antisym(col, a, b);
                }
            },
            OrderDirection::Desc => {
                lemma_key_le_trans(col, c, b, a);
                if key_eq(col, a, c) {
                    lemma_key_eq_le(col, a, c);
                    lemma_key_le_trans(col, b, a, c);
                    lemma_key_le_antisym(col, b, c);
                }
            },
        }
    }
}

/// Rows ordered both ways carry the same id: with distinct ids the
/// requested order is antisymmetric, which pins the sorted arrangement.
proof fn lemma_user_le_antisym(col: OrderColumn, dir: OrderDirection, a: User, b: User)
    requires
        user_le(col, dir, a, b),
        user_le(col, dir, b, a),
    ensures
        a.id == b.id,
{
    if key_eq(col, a, b) {
    } else {
        lemma_key_le_antisym(col, a, b);
    }
}

fn key_eq_exec(col: OrderColumn, a: &User, b: &User) -> (r: bool)
    ensures
        r == key_eq(col, *a, *b),
{
    match col {
        OrderColumn::Id => a.id == b.id,
        OrderColumn::Username => str_eq(a.username.as_str(), b.username.as_str()),
        OrderColumn::Email => str_eq(a.email.as_str(), b.email.as_str()),
        OrderColumn::CreatedAt => a.created_at == b.created_at,
    }
}

fn key_le_exec(col: OrderColumn, a: &User, b: &User) -> (r: bool)
    ensures
        r == key_le(col, *a, *b),
{
    match col {
        OrderColumn::Id => a.id <= b.id,
        OrderColumn::Username => str_le(a.username.as_str(), b.username.as_str()),
        OrderColumn::Email => str_le(a.email.as_str(), b.email.as_str()),
        OrderColumn::CreatedAt => a.created_at <= b.created_at,
    }
}

fn user_le_exec(col: OrderColumn, dir: OrderDirection, a: &User, b: &User) -> (r: bool)
    ensures
        r == user_le(col, dir, *a, *b),
{
    if key_eq_exec(col, a, b) {
        a.id <= b.id
    } else {
        match dir {
            OrderDirection::Asc => key_le_exec(col, a, b),
            OrderDirection::Desc => key_le_exec(col, b, a),
        }
    }
}

fn min_index(rest: &Vec<User>, col: OrderColumn, dir: OrderDirection) -> (m: usize)
    requires
        rest@.len() > 0,
    ensures
        m < rest@.len(),
        forall|j: int| 0 <= j < rest@.len() ==> user_le(col, dir, rest@[m as int], rest@[j]),
{
    let n = rest.len();
    let mut m: usize = 0;
    let mut i: usize = 1;
    proof {
        lemma_user_le_total(col, dir, rest@[0], rest@[0]);
    }
    while i < n
        invariant
            n == rest@.len(),
            m < n,
            i <= n,
            forall|j: int| 0 <= j < i ==> user_le(col, dir, rest@[m as int], rest@[j]),
        decreases n - i,
    {
        if !user_le_exec(col, dir, &rest[m], &rest[i]) {
            proof {
                lemma_user_le_total(col, dir, rest@[m as int], rest@[i as int]);
            }
            let ghost old_m = m;
            m = i;
            proof {
                assert forall|j: int| 0 <= j < i + 1 implies user_le(
                    col,
                    dir,
                    rest@[m as int],
                    rest@[j],
                ) by {
                    if j < i {
                        lemma_user_le_trans(
                            col,
                            dir,
                            rest@[m as int],
                            rest@[old_m as int],
                            rest@[j],
                        );
                    } else {
                        lemma_user_le_total(col, dir, rest@[m as int], rest@[m as int]);
                    }
                }
            }
        }
        i += 1;
    }
    m
}

/// Sorts account rows by the requested column and direction: the result is
/// sorted and holds exactly the same rows.
pub fn sort_users(v: Vec<User>, col: OrderColumn, dir: OrderDirection) -> (r: Vec<User>)
    ensures
        sorted_users(r@, col, dir),
        r@.to_multiset() == v@.to_multiset(),
        r@.len() == v@.len(),
{
    broadcast use vstd::seq_lib::group_to_multiset_ensures;

    let mut rest = v;
    let ghost orig = rest@;
    let mut out: Vec<User> = Vec::new();
    while rest.len() > 0
        invariant
            sorted_users(out@, col, dir),
            forall|i: int, j: int|
                0 <= i < out@.len() && 0 <= j < rest@.len() ==> user_le(
                    col,
                    dir,
                    out@[i],
                    rest@[j],
                ),
            out@.to_multiset().add(rest@.to_multiset()) == orig.to_multiset(),
            out@.len() + rest@.len() == orig.len(),
        decreases rest@.len(),
    {
        let ghost out_before = out@;
        let ghost rest_before = rest@;
        let m = min_index(&rest, col, dir);
        let x = rest.remove(m);
        out.push(x);
        proof {
            broadcast use vstd::seq_lib::group_to_multiset_ensures;

            rest_before.remove_ensures(m as int);
            assert(rest_before.remove(m as int).to_multiset() =~= rest_before.to_multiset().remove(
                x,
            ));
            assert(rest_before.to_multiset().contains(x)) by {
                assert(rest_before.contains(x)) by {
                    assert(rest_before[m as int] == x);
                }
            }
            assert(out@.to_multiset().add(rest@.to_multiset()) =~= orig.to_multiset());
            assert forall|i: int, j: int|
                0 <= i < j < out@.len() implies user_le(col, dir, out@[i], out@[j]) by {
                if j < out_before.len() {
                } else {
                    assert(out@[j] == x);
                    assert(out@[i] == out_before[i]);
                    assert(user_le(col, dir, out_before[i], rest_before[m as int]));
                }
            }
            assert forall|i: int, j: int|
                0 <= i < out@.len() && 0 <= j < rest@.len() implies user_le(
                col,
                dir,
                out@[i],
                rest@[j],
            ) by {
                let jj: int = if j < m as int {
                    j
                } else {
                    j + 1
                };
                assert(rest@[j] == rest_before[jj]);
                if i < out_before.len() {
                    assert(user_le(col, dir, out@[i], rest_before[jj]));
                } else {
                    assert(out@[i] == x);
                    assert(user_le(col, dir, x, rest_before[jj]));
                }
            }
        }
    }
    proof {
        broadcast use vstd::seq_lib::group_to_multiset_ensures;

        assert(rest@.to_multiset() =~= Multiset::<User>::empty());
        assert(out@.to_multiset().add(Multiset::<User>::empty()) =~= out@.to_multiset());
    }
    out
}


/// Every row a filter keeps is a row of the source.
proof fn lemma_filter_members<A>(s: Seq<A>, pred: spec_fn(A) -> bool)
    ensures
        forall|j: int|
            0 <= j < s.filter(pred).len() ==> s.contains(#[trigger] s.filter(pred)[j]),
    decreases s.len(),
{
    reveal(Seq::filter);
    if s.len() == 0 {
    } else {
        lemma_filter_members(s.drop_last(), pred);
        let f0 = s.drop_last().filter(pred);
        assert forall|j: int|
            0 <= j < s.filter(pred).len() implies s.contains(#[trigger] s.filter(pred)[j]) by {
            if j < f0.len() {
                assert(s.filter(pred)[j] == f0[j]);
                assert(s.drop_last().contains(f0[j]));
                let k = choose|k: int| 0 <= k < s.drop_last().len() && s.drop_last()[k] == f0[j];
                assert(s[k] == f0[j]);
            } else {
                assert(s.filter(pred)[j] == s.last());
                assert(s[s.len() - 1] == s.last());
            }
        }
    }
}

/// A filter keeps row ids distinct.
proof fn lemma_filter_unique_ids(s: Seq<User>, pred: spec_fn(User) -> bool)
    requires
        unique_user_ids(s),
    ensures
        unique_user_ids(s.filter(pred)),
    decreases s.len(),
{
    reveal(Seq::filter);
    if s.len() == 0 {
    } else {
        assert(unique_user_ids(s.drop_last())) by {
            assert forall|i: int, j: int|
                0 <= i < j < s.drop_last().len() implies (#[trigger] s.drop_last()[i]).id != (
                #[trigger] s.drop_last()[j]).id by {
                assert(s.drop_last()[i] == s[i] && s.drop_last()[j] == s[j]);
            }
        }
        lemma_filter_unique_ids(s.drop_last(), pred);
        lemma_filter_members(s.drop_last(), pred);
        let f0 = s.drop_last().filter(pred);
        if pred(s.last()) {
            assert forall|k: int| 0 <= k < f0.len() implies (#[trigger] f0[k]).id
                != s.last().id by {
                assert(s.drop_last().contains(f0[k]));
                let m = choose|m: int| 0 <= m < s.drop_last().len() && s.drop_last()[m] == f0[k];
                assert(s[m] == f0[k]);
                assert(s[m].id != s[s.len() - 1].id);
            }
            assert forall|k1: int, k2: int|
                0 <= k1 < k2 < s.filter(pred).len() implies (#[trigger] s.filter(pred)[k1]).id
                != (#[trigger] s.filter(pred)[k2]).id by {
                if k2 < f0.len() {
                    assert(s.filter(pred)[k1] == f0[k1] && s.filter(pred)[k2] == f0[k2]);
                } else {
                    assert(s.filter(pred)[k2] == s.last());
                    assert(s.filter(pred)[k1] == f0[k1]);
                }
            }
        }
    }
}

/// Two sequences holding the same rows share the distinct-id property.
proof fn lemma_unique_ids_transfer(s1: Seq<User>, s2: Seq<User>)
    requires
        s1.to_multiset() == s2.to_multiset(),
        unique_user_ids(s1),
    ensures
        unique_user_ids(s2),
{
    broadcast use vstd::seq_lib::group_to_multiset_ensures;

    assert(s1.no_duplicates()) by {
        assert forall|i: int, j: int|
            0 <= i < s1.len() && 0 <= j < s1.len() && i != j implies s1[i] != s1[j] by {
            if i < j {
                assert(s1[i].id != s1[j].id);
            } else {
                assert(s1[j].id != s1[i].id);
            }
        }
    }
    s1.lemma_multiset_has_no_duplicates();
    s2.lemma_multiset_has_no_duplicates_conv();
    assert forall|i: int, j: int| 0 <= i < j < s2.len() implies (#[trigger] s2[i]).id != (
    #[trigger] s2[j]).id by {
        if s2[i].id == s2[j].id {
            assert(s2[i] != s2[j]);
            assert(s2.contains(s2[i]) && s2.contains(s2[j]));
            assert(s1.to_multiset().count(s2[i]) > 0 && s1.to_multiset().count(s2[j]) > 0);
            assert(s1.contains(s2[i]) && s1.contains(s2[j]));
            let k1 = choose|k: int| 0 <= k < s1.len() && s1[k] == s2[i];
            let k2 = choose|k: int| 0 <= k < s1.len() && s1[k] == s2[j];
            assert(k1 != k2);
            if k1 < k2 {
                assert(s1[k1].id != s1[k2].id);
            } else {
                assert(s1[k2].id != s1[k1].id);
            }
        }
    }
}

/// With the id tie-break there is exactly one way to sort an id-distinct
/// row collection: two sorted sequences holding the same rows are equal,
/// row for row. This is what makes the listing deterministic.
pub proof fn lemma_sorted_unique(s1: Seq<User>, s2: Seq<User>, col: OrderColumn, dir: OrderDirection)
    requires
        s1.to_multiset() == s2.to_multiset(),
        sorted_users(s1, col, dir),
        sorted_users(s2, col, dir),
        unique_user_ids(s1),
    ensures
        s1 == s2,
    decreases s1.len(),
{
    broadcast use vstd::seq_lib::group_to_multiset_ensures;

    assert(s1.len() == s1.to_multiset().len());
    assert(s2.len() == s2.to_multiset().len());
    if s1.len() == 0 {
        assert(s2.len() == 0);
        assert(s1 =~= s2);
    } else {
        assert(s2.len() == s1.len());
        let a = s1[0];
        let b = s2[0];
        assert(s2.contains(b)) by {
            assert(s2[0] == b);
        }
        assert(s1.to_multiset().count(b) > 0);
        assert(s1.contains(b));
        let k = choose|k: int| 0 <= k < s1.len() && s1[k] == b;
        assert(s1.contains(a)) by {
            assert(s1[0] == a);
        }
        assert(s2.to_multiset().count(a) > 0);
        assert(s2.contains(a));
        let m = choose|m: int| 0 <= m < s2.len() && s2[m] == a;
        if k != 0 {
            assert(user_le(col, dir, a, b));
            if m != 0 {
                assert(user_le(col, dir, b, a));
                lemma_user_le_antisym(col, dir, a, b);
                assert(s1[0].id != s1[k].id);
                assert(false);
            }
        }
        assert(a == b);
        let t1 = s1.drop_first();
        let t2 = s2.drop_first();
        assert(t1 =~= s1.remove(0));
        assert(t2 =~= s2.remove(0));
        assert(s1.remove(0).to_multiset() =~= s1.to_multiset().remove(a));
        assert(s2.remove(0).to_multiset() =~= s2.to_multiset().remove(b));
        assert(t1.to_multiset() == t2.to_multiset());
        assert(sorted_users(t1, col, dir)) by {
            assert forall|i: int, j: int| 0 <= i < j < t1.len() implies user_le(
                col,
                dir,
                t1[i],
                t1[j],
            ) by {
                assert(t1[i] == s1[i + 1] && t1[j] == s1[j + 1]);
            }
        }
        assert(sorted_users(t2, col, dir)) by {
            assert forall|i: int, j: int| 0 <= i < j < t2.len() implies user_le(
                col,
                dir,
                t2[i],
                t2[j],
            ) by {
                assert(t2[i] == s2[i + 1] && t2[j] == s2[j + 1]);
            }
        }
        assert(unique_user_ids(t1)) by {
            assert forall|i: int, j: int| 0 <= i < j < t1.len() implies (#[trigger] t1[i]).id != (
            #[trigger] t1[j]).id by {
                assert(t1[i] == s1[i + 1] && t1[j] == s1[j + 1]);
            }
        }
        lemma_sorted_unique(t1, t2, col, dir);
        assert forall|i: int| 0 <= i < s1.len() implies s1[i] == s2[i] by {
            if i > 0 {
                assert(t1[i - 1] == s1[i] && t2[i - 1] == s2[i]);
                assert(t1[i - 1] == t2[i - 1]);
            }
        }
        assert(s1 =~= s2);
    }
}

/// Listing determinism: over a table with distinct row ids — the
/// directory's invariant — two results that are both the requested page
/// for searches leaving the same rows over are equal, row for row. With
/// the allowlist mapping this also gives the defaulting identities: a
/// column or direction outside the allowlist pages exactly as the default
/// does, and an absent search pages exactly as an empty one.
pub proof fn lemma_page_unique(
    rows1: Seq<User>,
    rows2: Seq<User>,
    us: Seq<User>,
    search1: Option<Seq<char>>,
    search2: Option<Seq<char>>,
    col: OrderColumn,
    dir: OrderDirection,
    offset: int,
    limit: int,
)
    requires
        unique_user_ids(us),
        spec_filtered_users_v(us, search1) == spec_filtered_users_v(us, search2),
        is_page_of_v(rows1, us, search1, col, dir, offset, limit),
        is_page_of_v(rows2, us, search2, col, dir, offset, limit),
    ensures
        rows1 == rows2,
{
    let fs = spec_filtered_users_v(us, search1);
    assert(unique_user_ids(fs)) by {
        if search_active_v(search1) {
            lemma_filter_unique_ids(us, match_pred(search1->0));
        }
    }
    let sorted1 = choose|sorted: Seq<User>|
        #![auto]
        sorted.to_multiset() == spec_filtered_users_v(us, search1).to_multiset() && sorted.len()
            == spec_filtered_users_v(us, search1).len() && sorted_users(sorted, col, dir) && rows1
            == sorted.subrange(
            page_bounds(sorted.len() as int, offset, limit).0,
            page_bounds(sorted.len() as int, offset, limit).1,
        );
    let sorted2 = choose|sorted: Seq<User>|
        #![auto]
        sorted.to_multiset() == spec_filtered_users_v(us, search2).to_multiset() && sorted.len()
            == spec_filtered_users_v(us, search2).len() && sorted_users(sorted, col, dir) && rows2
            == sorted.subrange(
            page_bounds(sorted.len() as int, offset, limit).0,
            page_bounds(sorted.len() as int, offset, limit).1,
        );
    lemma_unique_ids_transfer(fs, sorted1);
    lemma_sorted_unique(sorted1, sorted2, col, dir);
}

/// Determinism of `get_users_paginated`, stated over its contract: two
/// results over the same id-distinct table, for requests that normalize
/// alike — column and direction names mapping to the same allowlisted
/// values, searches leaving the same rows over, equal offset and limit
/// after normalization — are equal, row for row. With one request naming
/// a column outside the allowlist and the other naming the default
/// column, or one search absent and the other empty, the premises hold
/// definitionally: the defaulted call returns the very same rows.
pub proof fn lemma_get_users_paginated_deterministic(
    rows1: Seq<User>,
    rows2: Seq<User>,
    us: Seq<User>,
    p1: PaginationParams,
    p2: PaginationParams,
)
    requires
        unique_user_ids(us),
        spec_order_column(p1.order_column@) == spec_order_column(p2.order_column@),
        spec_order_direction(p1.order_direction@) == spec_order_direction(p2.order_direction@),
        spec_filtered_users(us, p1.search) == spec_filtered_users(us, p2.search),
        (if p1.offset > 0 {
            p1.offset as int
        } else {
            0
        }) == (if p2.offset > 0 {
            p2.offset as int
        } else {
            0
        }),
        (if p1.limit > 0 {
            p1.limit as int
        } else {
            10
        }) == (if p2.limit > 0 {
            p2.limit as int
        } else {
            10
        }),
        is_page_of(
            rows1,
            us,
            p1.search,
            spec_order_column(p1.order_column@),
            spec_order_direction(p1.order_direction@),
            if p1.offset > 0 {
                p1.offset as int
            } else {
                0
            },
            if p1.limit > 0 {
                p1.limit as int
            } else {
                10
            },
        ),
        is_page_of(
            rows2,
            us,
            p2.search,
            spec_order_column(p2.order_column@),
            spec_order_direction(p2.order_direction@),
            if p2.offset > 0 {
                p2.offset as int
            } else {
                0
            },
            if p2.limit > 0 {
                p2.limit as int
            } else {
                10
            },
        ),
    ensures
        rows1 == rows2,
{
    lemma_page_unique(
        rows1,
        rows2,
        us,
        opt_view(p1.search),
        opt_view(p2.search),
        spec_order_column(p1.order_column@),
        spec_order_direction(p1.order_direction@),
        if p1.offset > 0 {
            p1.offset as int
        } else {
            0
        },
        if p1.limit > 0 {
            p1.limit as int
        } else {
            10
        },
    );
}

// ---------------------------------------------------------------------------
// Pagination.

/// Where a page starts and ends inside a row list: the offset and limit
/// clipped to the list.
pub open spec fn page_bounds(len: int, offset: int, limit: int) -> (int, int) {
    let start = if offset < len {
        offset
    } else {
        len
    };
    let end = if start + limit < len {
        start + limit
    } else {
        len
    };
    (start, end)
}

/// Cuts one page out of a row list: rows before the offset are skipped,
/// then rows are taken up to the limit.
pub fn paginate_users(v: Vec<User>, offset: i64, limit: i64) -> (r: Vec<User>)
    requires
        offset >= 0,
        limit >= 0,
    ensures
        r@ == v@.subrange(
            page_bounds(v@.len() as int, offset as int, limit as int).0,
            page_bounds(v@.len() as int, offset as int, limit as int).1,
        ),
{
    let n = v.len();
    let ghost start = page_bounds(v@.len() as int, offset as int, limit as int).0;
    let ghost end = page_bounds(v@.len() as int, offset as int, limit as int).1;
    let mut out: Vec<User> = Vec::new();
    let mut skipped: i64 = 0;
    let mut taken: i64 = 0;
    let mut i: usize = 0;
    while i < n
        invariant
            offset >= 0,
            limit >= 0,
            n == v@.len(),
            i <= n,
            skipped == if i as int <= offset {
                i as int
            } else {
                offset as int
            },
            taken == out@.len(),
            taken <= limit,
            i as int <= skipped + taken || taken == limit,
            skipped + taken <= i as int,
            out@ == v@.subrange(
                page_bounds(i as int, offset as int, limit as int).0,
                page_bounds(i as int, offset as int, limit as int).1,
            ),
        decreases n - i,
    {
        if skipped < offset {
            skipped += 1;
            proof {
                assert(v@.subrange(
                    page_bounds(i + 1, offset as int, limit as int).0,
                    page_bounds(i + 1, offset as int, limit as int).1,
                ) =~= out@);
            }
        } else if taken < limit {
            out.push(v[i].clone());
            taken += 1;
            proof {
                assert(v@.subrange(
                    page_bounds(i + 1, offset as int, limit as int).0,
                    page_bounds(i + 1, offset as int, limit as int).1,
                ) =~= v@.subrange(
                    page_bounds(i as int, offset as int, limit as int).0,
                    page_bounds(i as int, offset as int, limit as int).1,
                ).push(v@[i as int]));
            }
        } else {
            proof {
                assert(skipped == offset);
                assert(offset + limit <= i as int);
                assert(page_bounds(i as int, offset as int, limit as int).0 == offset as int);
                assert(page_bounds(i as int, offset as int, limit as int).1 == offset + limit);
                assert(page_bounds(v@.len() as int, offset as int, limit as int).0
                    == offset as int);
                assert(page_bounds(v@.len() as int, offset as int, limit as int).1 == offset
                    + limit);
            }
            return out;
        }
        i += 1;
    }
    proof {
        assert(out@ =~= v@.subrange(start, end));
    }
    out
}

// ---------------------------------------------------------------------------
// The listing operations over the directory.

/// How many accounts a search leaves over; with no active search, all of
/// them.
pub fn get_filtered_users_count(db: &Directory, search: &Option<String>) -> (r: usize)
    ensures
        r == spec_filtered_users(db.users_seq(), *search).len(),
{
    let us = db.users_snapshot();
    match search {
        Some(s) => {
            if s.as_str().unicode_len() > 0 {
                let filtered = filter_users_by(us, s.as_str());
                filtered.len()
            } else {
                us.len()
            }
        },
        None => us.len(),
    }
}


/// `rows` is the requested page of the account listing: one contiguous
/// window of some sorted arrangement of exactly the rows the search leaves
/// over.
pub open spec fn is_page_of_v(
    rows: Seq<User>,
    us: Seq<User>,
    search: Option<Seq<char>>,
    col: OrderColumn,
    dir: OrderDirection,
    offset: int,
    limit: int,
) -> bool {
    exists|sorted: Seq<User>|
        #![auto]
        sorted.to_multiset() == spec_filtered_users_v(us, search).to_multiset() && sorted.len()
            == spec_filtered_users_v(us, search).len() && sorted_users(sorted, col, dir) && rows
            == sorted.subrange(
            page_bounds(sorted.len() as int, offset, limit).0,
            page_bounds(sorted.len() as int, offset, limit).1,
        )
}

pub open spec fn is_page_of(
    rows: Seq<User>,
    us: Seq<User>,
    search: Option<String>,
    col: OrderColumn,
    dir: OrderDirection,
    offset: int,
    limit: int,
) -> bool {
    is_page_of_v(rows, us, opt_view(search), col, dir, offset, limit)
}

/// One page of the account listing: the rows left by the search, sorted by
/// the allowlisted column and direction — key ties broken by row id, which
/// together with `lemma_page_unique` makes the result deterministic — cut
/// to the requested window. Offsets below zero count as zero; limits below
/// one fall back to the widget's default page of ten rows.
pub fn get_users_paginated(db: &Directory, params: &PaginationParams) -> (r: Vec<User>)
    ensures
        ({
            let col = spec_order_column(params.order_column@);
            let dir = spec_order_direction(params.order_direction@);
            let fs = spec_filtered_users(db.users_seq(), params.search);
            let offset = if params.offset > 0 {
                params.offset as int
            } else {
                0
            };
            let limit = if params.limit > 0 {
                params.limit as int
            } else {
                10
            };
            is_page_of(r@, db.users_seq(), params.search, col, dir, offset, limit)
        }),
{
    let col = order_column_of(params.order_column.as_str());
    let dir = order_direction_of(params.order_direction.as_str());
    let us = db.users_snapshot();
    let filtered = match &params.search {
        Some(s) => {
            if s.as_str().unicode_len() > 0 {
                filter_users_by(us, s.as_str())
            } else {
                copy_users(us)
            }
        },
        None => copy_users(us),
    };
    let sorted = sort_users(filtered, col, dir);
    let offset: i64 = if params.offset > 0 {
        params.offset
    } else {
        0
    };
    let limit: i64 = if params.limit > 0 {
        params.limit
    } else {
        10
    };
    let ghost sorted_view = sorted@;
    let page = paginate_users(sorted, offset, limit);
    proof {
        let fs = spec_filtered_users(db.users_seq(), params.search);
        assert(sorted_view.to_multiset() == fs.to_multiset() && sorted_view.len() == fs.len()
            && sorted_users(
            sorted_view,
            spec_order_column(params.order_column@),
            spec_order_direction(params.order_direction@),
        ) && page@ == sorted_view.subrange(
            page_bounds(sorted_view.len() as int, offset as int, limit as int).0,
            page_bounds(sorted_view.len() as int, offset as int, limit as int).1,
        ));
    }
    page
}

/// The whole account listing in the requested order, for export: the rows
/// left by the search, sorted, without a page window. The id tie-break
/// and `lemma_sorted_unique` make this result deterministic too.
pub fn get_users_for_export(
    db: &Directory,
    search: &Option<String>,
    order_column: &str,
    order_direction: &str,
) -> (r: Vec<User>)
    ensures
        ({
            let col = spec_order_column(order_column@);
            let dir = spec_order_direction(order_direction@);
            let fs = spec_filtered_users(db.users_seq(), *search);
            r@.to_multiset() == fs.to_multiset() && r@.len() == fs.len() && sorted_users(
                r@,
                col,
                dir,
            )
        }),
{
    let col = order_column_of(order_column);
    let dir = order_direction_of(order_direction);
    let us = db.users_snapshot();
    let filtered = match search {
        Some(s) => {
            if s.as_str().unicode_len() > 0 {
                filter_users_by(us, s.as_str())
            } else {
                copy_users(us)
            }
        },
        None => copy_users(us),
    };
    sort_users(filtered, col, dir)
}

/// Copies the account rows unchanged.
fn copy_users(us: &Vec<User>) -> (r: Vec<User>)
    ensures
        r@ == us@,
{
    let n = us.len();
    let mut out: Vec<User> = Vec::new();
    let mut i: usize = 0;
    while i < n
        invariant
            n == us@.len(),
            i <= n,
            out@ == us@.take(i as int),
        decreases n - i,
    {
        out.push(us[i].clone());
        proof {
            assert(us@.take(i + 1) =~= us@.take(i as int).push(us@[i as int]));
        }
        i += 1;
    }
    proof {
        assert(us@.take(n as int) =~= us@);
    }
    out
}

} // verus!
