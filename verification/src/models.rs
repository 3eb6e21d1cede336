//! The shared data contracts: entities held by the persistence gateway,
//! option rows served to dropdowns, form payloads with their validation
//! rules, and the request/response shapes of the paginated listing.
//!
//! Timestamps are carried as seconds since the Unix epoch; rendering them in
//! a calendar format is a presentation concern and stays outside the core.

use vstd::prelude::*;
use crate::outside::is_valid_email;

verus! {

#[derive(Debug, PartialEq)]
pub struct Country {
    pub id: i32,
    pub name: String,
}

#[derive(Debug, Clone)]
pub struct CountryForm {
    pub name: String,
    pub csrf_token: String,
}

#[derive(Debug, PartialEq)]
pub struct CountryOption {
    pub id: i32,
    pub name: String,
}

#[derive(Debug, PartialEq)]
pub struct State {
    pub id: i32,
    pub country_id: i32,
    pub name: String,
}

#[derive(Debug, Clone)]
pub struct StateForm {
    pub country_id: i32,
    pub name: String,
    pub csrf_token: String,
}

#[derive(Debug, PartialEq)]
pub struct StateOption {
    pub id: i32,
    pub country_id: i32,
    pub name: String,
}

#[derive(Debug, Clone, Copy)]
pub struct StatesQuery {
    pub country_id: i32,
}

#[derive(Debug, PartialEq)]
pub struct StateWithCountry {
    pub id: i32,
    pub country_id: i32,
    pub name: String,
    pub country_name: String,
}

#[derive(Debug, PartialEq)]
pub struct AdminStateRow {
    pub id: i32,
    pub country_id: i32,
    pub country_name: String,
    pub name: String,
}

#[derive(Debug)]
pub struct Admin {
    pub id: i32,
    pub username: String,
    pub email: String,
    pub password_hash: String,
    pub created_at: Option<u64>,
}

#[derive(Debug)]
pub struct User {
    pub id: i32,
    pub username: String,
    pub email: String,
    pub password_hash: String,
    pub created_at: u64,
    pub address: Option<String>,
    pub country_id: Option<i32>,
    pub state_id: Option<i32>,
}

#[derive(Debug, Clone, PartialEq)]
pub struct UserView {
    pub id: u32,
    pub name: String,
    pub email: String,
    pub address: Option<String>,
    pub country: Option<String>,
    pub state: Option<String>,
}

#[derive(Debug, Clone)]
pub struct CreateUserForm {
    pub username: String,
    pub email: String,
    pub password: String,
    pub address: String,
    pub country_id: i32,
    pub state_id: i32,
    pub csrf_token: String,
}

#[derive(Debug, Clone)]
pub struct UpdateUserForm {
    pub username: String,
    pub email: String,
    pub address: String,
    pub country_id: i32,
    pub state_id: i32,
    pub new_password: String,
    pub csrf_token: String,
}

#[derive(Debug, Clone)]
pub struct RegisterForm {
    pub username: String,
    pub email: String,
    pub password: String,
    pub csrf_token: String,
}

#[derive(Debug, Clone)]
pub struct LoginForm {
    pub username: String,
    pub password: String,
    pub csrf_token: String,
}

#[derive(Debug, Clone)]
pub struct CsrfOnlyForm {
    pub csrf_token: String,
}

/// Raw listing-request parameters as a datatable widget sends them: all
/// optional, all untrusted, mapped onto `PaginationParams` by an allowlist.
#[derive(Debug, Clone)]
pub struct DatatableParams {
    pub draw: u32,
    pub start: Option<i64>,
    pub length: Option<i64>,
    pub search_value: Option<String>,
    pub order_column: Option<i32>,
    pub order_dir: Option<String>,
}

#[derive(Debug, Clone)]
pub struct DatatableResponse<T> {
    pub draw: u32,
    pub records_total: usize,
    pub records_filtered: usize,
    pub data: Vec<T>,
}

#[derive(Debug, Clone)]
pub struct DataTablesRequest {
    pub draw: i32,
    pub start: i64,
    pub length: i64,
    pub search: DataTablesSearch,
    pub order: Vec<DataTablesOrder>,
}

#[derive(Debug, Clone)]
pub struct DataTablesSearch {
    pub value: String,
}

#[derive(Debug, Clone)]
pub struct DataTablesOrder {
    pub column: usize,
    pub dir: String,
}

#[derive(Debug, Clone)]
pub struct DataTablesResponseLegacy {
    pub draw: i32,
    pub records_total: usize,
    pub records_filtered: usize,
    pub data: Vec<UserRow>,
}

/// Normalized listing request: offsets and limits made non-negative, the
/// search trimmed to `None` when empty, column and direction still textual
/// and mapped through the allowlist at use.
#[derive(Debug, Clone)]
pub struct PaginationParams {
    pub offset: i64,
    pub limit: i64,
    pub search: Option<String>,
    pub order_column: String,
    pub order_direction: String,
}

/// One rendered listing row. `created_at` carries the decimal rendering
/// of the epoch-seconds timestamp — the calendar formatting a deployment
/// may prefer is a presentation concern outside the core.
#[derive(Debug, PartialEq)]
pub struct UserRow {
    pub id: i32,
    pub username: String,
    pub email: String,
    pub created_at: String,
}

#[derive(Debug, Clone)]
pub struct PdfExportParams {
    pub search: Option<String>,
    pub order_column: Option<String>,
    pub order_direction: Option<String>,
}

// ---------------------------------------------------------------------------
// Form validation rules, mirroring the gateway's declarative constraints.

pub open spec fn spec_valid_country_form(f: CountryForm) -> bool {
    f.name@.len() >= 1 && f.csrf_token@.len() >= 1
}

pub open spec fn spec_valid_state_form(f: StateForm) -> bool {
    f.country_id >= 1 && f.name@.len() >= 1 && f.csrf_token@.len() >= 1
}

pub open spec fn spec_valid_login_form(f: LoginForm) -> bool {
    f.username@.len() >= 1 && f.password@.len() >= 6 && f.csrf_token@.len() >= 1
}

pub open spec fn spec_valid_create_user_form(f: CreateUserForm) -> bool {
    f.username@.len() >= 1 && is_valid_email(f.email@) && f.password@.len() >= 6
        && f.address@.len() >= 1 && f.country_id >= 1 && f.state_id >= 1
        && f.csrf_token@.len() >= 1
}

pub open spec fn spec_valid_update_user_form(f: UpdateUserForm) -> bool {
    f.username@.len() >= 1 && is_valid_email(f.email@) && f.address@.len() >= 1
        && f.country_id >= 1 && f.state_id >= 1 && f.csrf_token@.len() >= 1
}

pub open spec fn spec_valid_register_form(f: RegisterForm) -> bool {
    f.username@.len() >= 1 && is_valid_email(f.email@) && f.password@.len() >= 6
        && f.csrf_token@.len() >= 1
}

impl CountryForm {
    pub fn validate(&self) -> (r: bool)
        ensures
            r == spec_valid_country_form(*self),
    {
        crate::text::str_nonempty(self.name.as_str()) && crate::text::str_nonempty(
            self.csrf_token.as_str(),
        )
    }
}

impl StateForm {
    pub fn validate(&self) -> (r: bool)
        ensures
            r == spec_valid_state_form(*self),
    {
        self.country_id >= 1 && crate::text::str_nonempty(self.name.as_str())
            && crate::text::str_nonempty(self.csrf_token.as_str())
    }
}

impl LoginForm {
    pub fn validate(&self) -> (r: bool)
        ensures
            r == spec_valid_login_form(*self),
    {
        crate::text::str_nonempty(self.username.as_str()) && crate::text::str_min_len(
            self.password.as_str(),
            6,
        ) && crate::text::str_nonempty(self.csrf_token.as_str())
    }
}

impl CreateUserForm {
    pub fn validate(&self) -> (r: bool)
        ensures
            r == spec_valid_create_user_form(*self),
    {
        crate::text::str_nonempty(self.username.as_str()) && crate::outside::email_is_valid(
            self.email.as_str(),
        ) && crate::text::str_min_len(self.password.as_str(), 6) && crate::text::str_nonempty(
            self.address.as_str(),
        ) && self.country_id >= 1 && self.state_id >= 1 && crate::text::str_nonempty(
            self.csrf_token.as_str(),
        )
    }
}

impl UpdateUserForm {
    pub fn validate(&self) -> (r: bool)
        ensures
            r == spec_valid_update_user_form(*self),
    {
        crate::text::str_nonempty(self.username.as_str()) && crate::outside::email_is_valid(
            self.email.as_str(),
        ) && crate::text::str_nonempty(self.address.as_str()) && self.country_id >= 1
            && self.state_id >= 1 && crate::text::str_nonempty(self.csrf_token.as_str())
    }
}

impl RegisterForm {
    pub fn validate(&self) -> (r: bool)
        ensures
            r == spec_valid_register_form(*self),
    {
        crate::text::str_nonempty(self.username.as_str()) && crate::outside::email_is_valid(
            self.email.as_str(),
        ) && crate::text::str_min_len(self.password.as_str(), 6) && crate::text::str_nonempty(
            self.csrf_token.as_str(),
        )
    }
}

// ---------------------------------------------------------------------------
// Clones with contracts: the derived impls would be opaque to the verifier,
// so the entity types clone field by field.

impl Clone for Country {
    fn clone(&self) -> (r: Self)
        ensures
            r == *self,
    {
        Country { id: self.id, name: self.name.clone() }
    }
}

impl Clone for CountryOption {
    fn clone(&self) -> (r: Self)
        ensures
            r == *self,
    {
        CountryOption { id: self.id, name: self.name.clone() }
    }
}

impl Clone for State {
    fn clone(&self) -> (r: Self)
        ensures
            r == *self,
    {
        State { id: self.id, country_id: self.country_id, name: self.name.clone() }
    }
}

impl Clone for StateOption {
    fn clone(&self) -> (r: Self)
        ensures
            r == *self,
    {
        StateOption { id: self.id, country_id: self.country_id, name: self.name.clone() }
    }
}

impl Clone for StateWithCountry {
    fn clone(&self) -> (r: Self)
        ensures
            r == *self,
    {
        StateWithCountry {
            id: self.id,
            country_id: self.country_id,
            name: self.name.clone(),
            country_name: self.country_name.clone(),
        }
    }
}

impl Clone for AdminStateRow {
    fn clone(&self) -> (r: Self)
        ensures
            r == *self,
    {
        AdminStateRow {
            id: self.id,
            country_id: self.country_id,
            country_name: self.country_name.clone(),
            name: self.name.clone(),
        }
    }
}

/// Clones an optional string, keeping its value.
pub fn clone_opt_string(s: &Option<String>) -> (r: Option<String>)
    ensures
        r == *s,
{
    match s {
        Some(v) => Some(v.clone()),
        None => None,
    }
}

impl Clone for Admin {
    fn clone(&self) -> (r: Self)
        ensures
            r == *self,
    {
        Admin {
            id: self.id,
            username: self.username.clone(),
            email: self.email.clone(),
            password_hash: self.password_hash.clone(),
            created_at: self.created_at,
        }
    }
}

impl Clone for User {
    fn clone(&self) -> (r: Self)
        ensures
            r == *self,
    {
        User {
            id: self.id,
            username: self.username.clone(),
            email: self.email.clone(),
            password_hash: self.password_hash.clone(),
            created_at: self.created_at,
            address: clone_opt_string(&self.address),
            country_id: self.country_id,
            state_id: self.state_id,
        }
    }
}

impl Clone for UserRow {
    fn clone(&self) -> (r: Self)
        ensures
            r == *self,
    {
        UserRow {
            id: self.id,
            username: self.username.clone(),
            email: self.email.clone(),
            created_at: self.created_at.clone(),
        }
    }
}

} // verus!

