//! The decision cores of the administrative endpoints: each takes the
//! session record resolved for the request, checks the CSRF token and the
//! form's validation rules, performs the mutation through the
//! write-through primitives, and reports the outcome in the error
//! taxonomy. What the presentation layer renders for each outcome —
//! pages, redirects, status codes — stays outside the core.

use vstd::prelude::*;
use vstd::string::StringExecFns;
use crate::errors::AppError;
use crate::cache::{
    AppState, create_country_invalidating, create_state_invalidating, delete_country_guarded,
    delete_state_guarded, get_countries_cached, get_states_cached, has_entry,
    map_country_options, state_options_match, country_options_match,
    update_country_invalidating, update_state_invalidating,
};
use crate::models::{
    AdminStateRow, Country, CountryForm, CountryOption, CsrfOnlyForm, State, StateForm,
    StateOption, StatesQuery, UserView, spec_valid_country_form, spec_valid_state_form,
};
use crate::repository::{
    country_by_id, country_index, has_country_id, has_country_name, has_state_id, has_user_id,
    other_country_has_name, state_by_id, state_index, states_of_country, states_with_countries,
    user_by_id, users_of_country, users_of_state,
};
use crate::session::{Session, spec_validate_csrf};

verus! {

/// The countries page data: every country as an option row.
pub fn admin_countries_list(app: &AppState) -> (r: Vec<CountryOption>)
    ensures
        country_options_match(r@, app.db_spec().countries_seq()),
{
    let rows = app.directory().get_countries();
    map_country_options(rows)
}

/// The states page data: every state joined with its country's name.
pub fn admin_states_list(app: &AppState) -> (r: Vec<AdminStateRow>)
    ensures
        ({
            let rows = states_with_countries(
                app.db_spec().countries_seq(),
                app.db_spec().states_seq(),
            );
            r@.len() == rows.len() && forall|i: int|
                0 <= i < rows.len() ==> (#[trigger] r@[i]).id == rows[i].id && r@[i].country_id
                    == rows[i].country_id && r@[i].name@ == rows[i].name@ && r@[i].country_name@
                    == rows[i].country_name@
        }),
{
    let joined = app.directory().get_states_with_countries();
    let n = joined.len();
    let mut out: Vec<AdminStateRow> = Vec::new();
    let mut i: usize = 0;
    while i < n
        invariant
            n == joined@.len(),
            i <= n,
            out@.len() == i,
            forall|j: int|
                0 <= j < i ==> (#[trigger] out@[j]).id == joined@[j].id && out@[j].country_id
                    == joined@[j].country_id && out@[j].name@ == joined@[j].name@
                    && out@[j].country_name@ == joined@[j].country_name@,
        decreases n - i,
    {
        let row = joined[i].clone();
        out.push(
            AdminStateRow {
                id: row.id,
                country_id: row.country_id,
                country_name: row.country_name,
                name: row.name,
            },
        );
        i += 1;
    }
    out
}

/// The states dropdown feed: one country's states, served through the
/// cache.
pub fn admin_states_api(app: &mut AppState, query: &StatesQuery, now: u64) -> (r: Vec<
    StateOption,
>)
    requires
        old(app).wf(),
        now <= u64::MAX - 300,
    ensures
        final(app).wf(),
        final(app).db_spec() == old(app).db_spec(),
        state_options_match(
            r@,
            states_of_country(old(app).db_spec().states_seq(), query.country_id),
            query.country_id,
        ),
{
    get_states_cached(app, query.country_id, now)
}

/// Creates a country from a submitted form: the CSRF token must validate
/// and the name must be non-empty, then the mutation runs and the cache is
/// invalidated before the outcome is returned.
pub fn admin_country_create_submit(app: &mut AppState, session: &Session, form: &CountryForm)
    -> (r: Result<i32, AppError>)
    requires
        old(app).wf(),
    ensures
        final(app).wf(),
        final(app).db_spec().states_seq() == old(app).db_spec().states_seq(),
        final(app).db_spec().users_seq() == old(app).db_spec().users_seq(),
        final(app).db_spec().admins_seq() == old(app).db_spec().admins_seq(),
        final(app).db_spec().state_next() == old(app).db_spec().state_next(),
        final(app).db_spec().user_next() == old(app).db_spec().user_next(),
        final(app).db_spec().admin_next() == old(app).db_spec().admin_next(),
        ({
            let accepted = spec_validate_csrf(*session, form.csrf_token@)
                && spec_valid_country_form(*form);
            &&& (r == Err::<i32, AppError>(AppError::ValidationFailed) <==> !accepted)
            &&& (!accepted ==> *final(app) == *old(app))
            &&& (accepted ==> ((r matches Ok(id) && id == old(app).db_spec().country_next())
                <==> (!has_country_name(old(app).db_spec().countries_seq(), form.name@) && old(app).db_spec().can_add_country())))
            &&& (accepted ==> (r == Err::<i32, AppError>(AppError::Conflict)
                <==> has_country_name(old(app).db_spec().countries_seq(), form.name@)))
            &&& (r is Err ==> *final(app) == *old(app))
            &&& (r matches Ok(id) ==> final(app).db_spec().country_next() == old(
                app,
            ).db_spec().country_next() + 1 && exists|p: int, c: Country|
                0 <= p <= old(app).db_spec().countries_seq().len() && c.id == id && c.name@
                    == form.name@ && final(app).db_spec().countries_seq()
                    == old(app).db_spec().countries_seq().insert(p, c))
            &&& (r is Ok ==> final(app).countries_entry() is None && forall|cid: i32|
                has_country_id(final(app).db_spec().countries_seq(), cid) ==> !has_entry(
                    final(app).state_entries(),
                    cid,
                ))
        }),
{
    if !crate::session::validate_csrf(session, form.csrf_token.as_str()) {
        return Err(AppError::ValidationFailed);
    }
    if !form.validate() {
        return Err(AppError::ValidationFailed);
    }
    create_country_invalidating(app, form.name.as_str())
}

/// Renames a country from a submitted form, under the same CSRF and
/// validation rules; the cache is invalidated before returning.
pub fn admin_country_edit_submit(
    app: &mut AppState,
    country_id: i32,
    session: &Session,
    form: &CountryForm,
) -> (r: Result<(), AppError>)
    requires
        old(app).wf(),
    ensures
        final(app).wf(),
        final(app).db_spec().states_seq() == old(app).db_spec().states_seq(),
        final(app).db_spec().users_seq() == old(app).db_spec().users_seq(),
        final(app).db_spec().admins_seq() == old(app).db_spec().admins_seq(),
        final(app).db_spec().country_next() == old(app).db_spec().country_next(),
        final(app).db_spec().state_next() == old(app).db_spec().state_next(),
        final(app).db_spec().user_next() == old(app).db_spec().user_next(),
        final(app).db_spec().admin_next() == old(app).db_spec().admin_next(),
        ({
            let accepted = spec_validate_csrf(*session, form.csrf_token@)
                && spec_valid_country_form(*form);
            &&& (r == Err::<(), AppError>(AppError::ValidationFailed) <==> !accepted)
            &&& (!accepted ==> *final(app) == *old(app))
            &&& (r is Ok && !has_country_id(old(app).db_spec().countries_seq(), country_id)
                ==> final(app).db_spec().countries_seq() == old(app).db_spec().countries_seq())
            &&& (r is Ok && has_country_id(old(app).db_spec().countries_seq(), country_id)
                ==> exists|p: int, c: Country|
                0 <= p <= old(app).db_spec().countries_seq().len() - 1 && c.id == country_id
                    && c.name@ == form.name@ && final(app).db_spec().countries_seq()
                    == old(app).db_spec().countries_seq().remove(
                    country_index(old(app).db_spec().countries_seq(), country_id),
                ).insert(p, c))
            &&& (accepted ==> (r is Ok <==> !other_country_has_name(
                old(app).db_spec().countries_seq(),
                country_id,
                form.name@,
            )))
            &&& (accepted ==> (r == Err::<(), AppError>(AppError::Conflict)
                <==> other_country_has_name(
                old(app).db_spec().countries_seq(),
                country_id,
                form.name@,
            )))
            &&& (r is Err ==> *final(app) == *old(app))
            &&& (r is Ok ==> final(app).countries_entry() is None && forall|cid: i32|
                has_country_id(final(app).db_spec().countries_seq(), cid) ==> !has_entry(
                    final(app).state_entries(),
                    cid,
                ))
        }),
{
    if !crate::session::validate_csrf(session, form.csrf_token.as_str()) {
        return Err(AppError::ValidationFailed);
    }
    if !form.validate() {
        return Err(AppError::ValidationFailed);
    }
    update_country_invalidating(app, country_id, form.name.as_str())
}

/// Deletes a country from a submitted form: the CSRF token must validate,
/// and the referential guard refuses with `Conflict` while any state or
/// account still references the country; the country row is then
/// untouched. On success the cache is invalidated before returning.
pub fn admin_country_delete(
    app: &mut AppState,
    country_id: i32,
    session: &Session,
    form: &CsrfOnlyForm,
) -> (r: Result<(), AppError>)
    requires
        old(app).wf(),
    ensures
        final(app).wf(),
        final(app).db_spec().states_seq() == old(app).db_spec().states_seq(),
        final(app).db_spec().users_seq() == old(app).db_spec().users_seq(),
        final(app).db_spec().admins_seq() == old(app).db_spec().admins_seq(),
        final(app).db_spec().country_next() == old(app).db_spec().country_next(),
        final(app).db_spec().state_next() == old(app).db_spec().state_next(),
        final(app).db_spec().user_next() == old(app).db_spec().user_next(),
        final(app).db_spec().admin_next() == old(app).db_spec().admin_next(),
        ({
            let accepted = spec_validate_csrf(*session, form.csrf_token@);
            &&& (r == Err::<(), AppError>(AppError::ValidationFailed) <==> !accepted)
            &&& (accepted ==> (r == Err::<(), AppError>(AppError::Conflict) <==> (
            states_of_country(old(app).db_spec().states_seq(), country_id).len() > 0
                || users_of_country(old(app).db_spec().users_seq(), country_id).len() > 0)))
            &&& (r is Err ==> *final(app) == *old(app))
            &&& (r is Ok && !has_country_id(old(app).db_spec().countries_seq(), country_id)
                ==> final(app).db_spec().countries_seq() == old(app).db_spec().countries_seq())
            &&& (r is Ok && has_country_id(old(app).db_spec().countries_seq(), country_id)
                ==> final(app).db_spec().countries_seq()
                == old(app).db_spec().countries_seq().remove(
                country_index(old(app).db_spec().countries_seq(), country_id),
            ))
            &&& (accepted ==> (r is Ok <==> (states_of_country(
                old(app).db_spec().states_seq(),
                country_id,
            ).len() == 0 && users_of_country(old(app).db_spec().users_seq(), country_id).len()
                == 0)))
            &&& (r is Ok ==> !has_country_id(final(app).db_spec().countries_seq(), country_id))
            &&& (r is Ok ==> final(app).countries_entry() is None && forall|cid: i32|
                has_country_id(final(app).db_spec().countries_seq(), cid) ==> !has_entry(
                    final(app).state_entries(),
                    cid,
                ))
        }),
{
    if !crate::session::validate_csrf(session, form.csrf_token.as_str()) {
        return Err(AppError::ValidationFailed);
    }
    delete_country_guarded(app, country_id)
}

/// Creates a state from a submitted form, under the CSRF and validation
/// rules; the parent country must exist. The cache is invalidated before
/// returning.
pub fn admin_state_create_submit(app: &mut AppState, session: &Session, form: &StateForm) -> (r:
    Result<i32, AppError>)
    requires
        old(app).wf(),
    ensures
        final(app).wf(),
        final(app).db_spec().countries_seq() == old(app).db_spec().countries_seq(),
        final(app).db_spec().users_seq() == old(app).db_spec().users_seq(),
        final(app).db_spec().admins_seq() == old(app).db_spec().admins_seq(),
        final(app).db_spec().country_next() == old(app).db_spec().country_next(),
        final(app).db_spec().user_next() == old(app).db_spec().user_next(),
        final(app).db_spec().admin_next() == old(app).db_spec().admin_next(),
        ({
            let accepted = spec_validate_csrf(*session, form.csrf_token@)
                && spec_valid_state_form(*form);
            &&& (r == Err::<i32, AppError>(AppError::ValidationFailed) <==> !accepted)
            &&& (!accepted ==> *final(app) == *old(app))
            &&& (r matches Ok(id) ==> final(app).db_spec().state_next() == old(
                app,
            ).db_spec().state_next() + 1 && exists|p: int, st: State|
                0 <= p <= old(app).db_spec().states_seq().len() && st.id == id && st.country_id
                    == form.country_id && st.name@ == form.name@ && final(app).db_spec().states_seq() == old(app).db_spec().states_seq().insert(p, st))
            &&& (accepted ==> ((r matches Ok(id) && id == old(app).db_spec().state_next()) <==> (
            has_country_id(old(app).db_spec().countries_seq(), form.country_id) && old(app).db_spec().can_add_state())))
            &&& (accepted ==> (r == Err::<i32, AppError>(AppError::NotFound)
                <==> !has_country_id(old(app).db_spec().countries_seq(), form.country_id)))
            &&& (r is Err ==> *final(app) == *old(app))
            &&& (r is Ok ==> final(app).countries_entry() is None && forall|cid: i32|
                has_country_id(final(app).db_spec().countries_seq(), cid) ==> !has_entry(
                    final(app).state_entries(),
                    cid,
                ))
        }),
{
    if !crate::session::validate_csrf(session, form.csrf_token.as_str()) {
        return Err(AppError::ValidationFailed);
    }
    if !form.validate() {
        return Err(AppError::ValidationFailed);
    }
    create_state_invalidating(app, form.country_id, form.name.as_str())
}

/// Rewrites a state from a submitted form, under the CSRF and validation
/// rules; the cache is invalidated before returning.
pub fn admin_state_edit_submit(
    app: &mut AppState,
    state_id: i32,
    session: &Session,
    form: &StateForm,
) -> (r: Result<(), AppError>)
    requires
        old(app).wf(),
    ensures
        final(app).wf(),
        final(app).db_spec().countries_seq() == old(app).db_spec().countries_seq(),
        final(app).db_spec().users_seq() == old(app).db_spec().users_seq(),
        final(app).db_spec().admins_seq() == old(app).db_spec().admins_seq(),
        final(app).db_spec().country_next() == old(app).db_spec().country_next(),
        final(app).db_spec().state_next() == old(app).db_spec().state_next(),
        final(app).db_spec().user_next() == old(app).db_spec().user_next(),
        final(app).db_spec().admin_next() == old(app).db_spec().admin_next(),
        ({
            let accepted = spec_validate_csrf(*session, form.csrf_token@)
                && spec_valid_state_form(*form);
            &&& (r == Err::<(), AppError>(AppError::ValidationFailed) <==> !accepted)
            &&& (!accepted ==> *final(app) == *old(app))
            &&& (r is Ok && !has_state_id(old(app).db_spec().states_seq(), state_id) ==> final(app).db_spec().states_seq() == old(app).db_spec().states_seq())
            &&& (r is Ok && has_state_id(old(app).db_spec().states_seq(), state_id) ==> exists|
                p: int,
                st: State,
            |
                0 <= p <= old(app).db_spec().states_seq().len() - 1 && st.id == state_id
                    && st.country_id == form.country_id && st.name@ == form.name@ && final(app).db_spec().states_seq() == old(app).db_spec().states_seq().remove(
                    state_index(old(app).db_spec().states_seq(), state_id),
                ).insert(p, st))
            &&& (accepted ==> (r is Ok <==> (has_country_id(
                old(app).db_spec().countries_seq(),
                form.country_id,
            ) || !has_state_id(old(app).db_spec().states_seq(), state_id))))
            &&& (r is Err ==> *final(app) == *old(app))
            &&& (r is Ok ==> final(app).countries_entry() is None && forall|cid: i32|
                has_country_id(final(app).db_spec().countries_seq(), cid) ==> !has_entry(
                    final(app).state_entries(),
                    cid,
                ))
        }),
{
    if !crate::session::validate_csrf(session, form.csrf_token.as_str()) {
        return Err(AppError::ValidationFailed);
    }
    if !form.validate() {
        return Err(AppError::ValidationFailed);
    }
    update_state_invalidating(app, state_id, form.country_id, form.name.as_str())
}

/// Deletes a state from a submitted form: the CSRF token must validate,
/// and the referential guard refuses with `Conflict` while any account
/// still references the state. On success the cache is invalidated before
/// returning.
pub fn admin_state_delete(
    app: &mut AppState,
    state_id: i32,
    session: &Session,
    form: &CsrfOnlyForm,
) -> (r: Result<(), AppError>)
    requires
        old(app).wf(),
    ensures
        final(app).wf(),
        final(app).db_spec().countries_seq() == old(app).db_spec().countries_seq(),
        final(app).db_spec().users_seq() == old(app).db_spec().users_seq(),
        final(app).db_spec().admins_seq() == old(app).db_spec().admins_seq(),
        final(app).db_spec().country_next() == old(app).db_spec().country_next(),
        final(app).db_spec().state_next() == old(app).db_spec().state_next(),
        final(app).db_spec().user_next() == old(app).db_spec().user_next(),
        final(app).db_spec().admin_next() == old(app).db_spec().admin_next(),
        ({
            let accepted = spec_validate_csrf(*session, form.csrf_token@);
            &&& (r == Err::<(), AppError>(AppError::ValidationFailed) <==> !accepted)
            &&& (accepted ==> (r == Err::<(), AppError>(AppError::Conflict) <==> users_of_state(
                old(app).db_spec().users_seq(),
                state_id,
            ).len() > 0))
            &&& (r is Err ==> *final(app) == *old(app))
            &&& (r is Ok && !has_state_id(old(app).db_spec().states_seq(), state_id) ==> final(app).db_spec().states_seq() == old(app).db_spec().states_seq())
            &&& (r is Ok && has_state_id(old(app).db_spec().states_seq(), state_id) ==> final(app).db_spec().states_seq() == old(app).db_spec().states_seq().remove(
                state_index(old(app).db_spec().states_seq(), state_id),
            ))
            &&& (accepted ==> (r is Ok <==> users_of_state(
                old(app).db_spec().users_seq(),
                state_id,
            ).len() == 0))
            &&& (r is Ok ==> !has_state_id(final(app).db_spec().states_seq(), state_id))
            &&& (r is Ok ==> final(app).countries_entry() is None && forall|cid: i32|
                has_country_id(final(app).db_spec().countries_seq(), cid) ==> !has_entry(
                    final(app).state_entries(),
                    cid,
                ))
        }),
{
    if !crate::session::validate_csrf(session, form.csrf_token.as_str()) {
        return Err(AppError::ValidationFailed);
    }
    delete_state_guarded(app, state_id)
}

/// The detail page data for one account: its profile joined with the
/// names of its referenced country and state.
pub fn user_detail(app: &AppState, user_id: i32) -> (r: Result<UserView, AppError>)
    requires
        app.wf(),
    ensures
        r is Ok <==> has_user_id(app.db_spec().users_seq(), user_id),
        r == Err::<UserView, AppError>(AppError::NotFound) <==> !has_user_id(
            app.db_spec().users_seq(),
            user_id,
        ),
        r matches Ok(v) ==> ({
            let u = user_by_id(app.db_spec().users_seq(), user_id);
            &&& v.id == u.id as u32
            &&& v.name@ == u.username@
            &&& v.email@ == u.email@
            &&& (v.country matches Some(n) <==> (u.country_id matches Some(c) && has_country_id(
                app.db_spec().countries_seq(),
                c,
            )))
            &&& ((u.country_id matches Some(c) && has_country_id(
                app.db_spec().countries_seq(),
                c,
            )) ==> v.country->0@ == country_by_id(app.db_spec().countries_seq(), u.country_id->0)
                .name@)
            &&& (v.state matches Some(n) <==> (u.state_id matches Some(sid) && has_state_id(
                app.db_spec().states_seq(),
                sid,
            )))
            &&& ((u.state_id matches Some(sid) && has_state_id(app.db_spec().states_seq(), sid))
                ==> v.state->0@ == state_by_id(app.db_spec().states_seq(), u.state_id->0).name@)
        }),
{
    let user = match app.directory().find_user_by_id(user_id) {
        Some(u) => u,
        None => {
            return Err(AppError::NotFound);
        },
    };
    let country = match user.country_id {
        Some(c) => {
            match app.directory().get_country_by_id(c) {
                Some(row) => Some(row.name),
                None => None,
            }
        },
        None => None,
    };
    let state_name = match user.state_id {
        Some(sid) => {
            match app.directory().get_state_by_id(sid) {
                Some(row) => Some(row.name),
                None => None,
            }
        },
        None => None,
    };
    Ok(
        UserView {
            id: user.id as u32,
            name: user.username,
            email: user.email,
            address: user.address,
            country,
            state: state_name,
        },
    )
}

/// The profile validation and mutation core of account creation: the CSRF
/// token and the form rules gate the insert; uniqueness and referential
/// outcomes surface in the error taxonomy.
pub fn user_create_submit(
    app: &mut AppState,
    session: &Session,
    form: &crate::models::CreateUserForm,
    now: u64,
) -> (r: Result<i32, AppError>)
    requires
        old(app).wf(),
    ensures
        final(app).wf(),
        final(app).db_spec().countries_seq() == old(app).db_spec().countries_seq(),
        final(app).db_spec().states_seq() == old(app).db_spec().states_seq(),
        final(app).db_spec().admins_seq() == old(app).db_spec().admins_seq(),
        final(app).countries_entry() == old(app).countries_entry(),
        final(app).state_entries() == old(app).state_entries(),
        ({
            let accepted = spec_validate_csrf(*session, form.csrf_token@)
                && crate::models::spec_valid_create_user_form(*form);
            let conflict = crate::repository::has_username(
                old(app).db_spec().users_seq(),
                form.username@,
            ) || crate::repository::has_user_email(old(app).db_spec().users_seq(), form.email@);
            let dangling = !has_country_id(old(app).db_spec().countries_seq(), form.country_id)
                || !has_state_id(old(app).db_spec().states_seq(), form.state_id);
            &&& (r == Err::<i32, AppError>(AppError::ValidationFailed) <==> !accepted)
            &&& (accepted ==> (r == Err::<i32, AppError>(AppError::Conflict) <==> conflict))
            &&& (accepted ==> (r == Err::<i32, AppError>(AppError::NotFound) <==> (!conflict
                && dangling)))
            &&& (r is Err ==> *final(app) == *old(app))
            &&& (r matches Ok(id) ==> id == old(app).db_spec().user_next() && exists|
                u: crate::models::User,
            |
                u.id == id && u.username@ == form.username@ && u.email@ == form.email@
                    && u.created_at == now && (u.address matches Some(a) && a@ == form.address@)
                    && u.country_id == Some(form.country_id) && u.state_id == Some(form.state_id)
                    && crate::outside::bcrypt_verifies(form.password@, u.password_hash@)
                    && final(app).db_spec().users_seq() == old(app).db_spec().users_seq().push(
                    u,
                ))
        }),
{
    if !crate::session::validate_csrf(session, form.csrf_token.as_str()) {
        return Err(AppError::ValidationFailed);
    }
    if !form.validate() {
        return Err(AppError::ValidationFailed);
    }
    let address = String::from_str(form.address.as_str());
    app.create_user(
        form.username.as_str(),
        form.email.as_str(),
        form.password.as_str(),
        Some(address),
        Some(form.country_id),
        Some(form.state_id),
        now,
    )
}

/// The validation and mutation core of account editing: profile fields are
/// rewritten in place and, when the form carries a new password that is
/// not blank, the password hash is replaced afterwards.
pub fn user_edit_submit(
    app: &mut AppState,
    user_id: i32,
    session: &Session,
    form: &crate::models::UpdateUserForm,
) -> (r: Result<(), AppError>)
    requires
        old(app).wf(),
    ensures
        final(app).wf(),
        final(app).db_spec().countries_seq() == old(app).db_spec().countries_seq(),
        final(app).db_spec().states_seq() == old(app).db_spec().states_seq(),
        final(app).db_spec().admins_seq() == old(app).db_spec().admins_seq(),
        final(app).countries_entry() == old(app).countries_entry(),
        final(app).state_entries() == old(app).state_entries(),
        ({
            let accepted = spec_validate_csrf(*session, form.csrf_token@)
                && crate::models::spec_valid_update_user_form(*form);
            let present = has_user_id(old(app).db_spec().users_seq(), user_id);
            let conflict = crate::repository::other_user_has_name_or_email(
                old(app).db_spec().users_seq(),
                user_id,
                form.username@,
                form.email@,
            );
            let dangling = !has_country_id(old(app).db_spec().countries_seq(), form.country_id)
                || !has_state_id(old(app).db_spec().states_seq(), form.state_id);
            &&& (r == Err::<(), AppError>(AppError::ValidationFailed) <==> !accepted)
            &&& (!accepted ==> *final(app) == *old(app))
            &&& (accepted && present ==> (r == Err::<(), AppError>(AppError::Conflict)
                <==> conflict))
            &&& (accepted && present ==> (r == Err::<(), AppError>(AppError::NotFound) <==> (
            !conflict && dangling)))
            &&& (r == Err::<(), AppError>(AppError::Conflict) || r == Err::<(), AppError>(
                AppError::NotFound,
            ) ==> *final(app) == *old(app))
            &&& (accepted && !present ==> final(app).db_spec().users_seq() == old(app).db_spec().users_seq() && (r is Ok || r == Err::<(), AppError>(
                AppError::Unavailable,
            )))
            &&& (accepted && present && !conflict && !dangling ==> (r is Ok || r == Err::<
                (),
                AppError,
            >(AppError::Unavailable)) && exists|u: crate::models::User|
                u.id == user_id && u.username@ == form.username@ && u.email@ == form.email@
                    && (u.address matches Some(a) && a@ == form.address@) && u.country_id == Some(
                    form.country_id,
                ) && u.state_id == Some(form.state_id) && (crate::outside::trimmed(
                    form.new_password@,
                ).len() == 0 ==> u.password_hash == user_by_id(
                    old(app).db_spec().users_seq(),
                    user_id,
                ).password_hash) && (r is Ok && crate::outside::trimmed(form.new_password@).len()
                    > 0 ==> crate::outside::bcrypt_verifies(
                    form.new_password@,
                    u.password_hash@,
                )) && final(app).db_spec().users_seq() == old(app).db_spec().users_seq().update(
                    crate::repository::user_index(old(app).db_spec().users_seq(), user_id),
                    u,
                ))
        }),
{
    if !crate::session::validate_csrf(session, form.csrf_token.as_str()) {
        return Err(AppError::ValidationFailed);
    }
    if !form.validate() {
        return Err(AppError::ValidationFailed);
    }
    let ghost us0 = app.db_spec().users_seq();
    let address = String::from_str(form.address.as_str());
    let updated = app.update_user(
        user_id,
        form.username.as_str(),
        form.email.as_str(),
        Some(address),
        Some(form.country_id),
        Some(form.state_id),
    );
    if updated.is_err() {
        return updated;
    }
    let trimmed_password = crate::outside::str_trim(form.new_password.as_str());
    if crate::text::str_nonempty(trimmed_password.as_str()) {
        let ghost us1 = app.db_spec().users_seq();
        let pw_result = app.update_password(user_id, form.new_password.as_str());
        proof {
            if has_user_id(us0, user_id) {
                let k = crate::repository::user_index(us0, user_id);
                assert((#[trigger] us0[k]).id == user_id);
                if pw_result is Ok {
                    assert(has_user_id(us1, user_id)) by {
                        assert((#[trigger] us1[k]).id == user_id);
                    }
                    let k1 = crate::repository::user_index(us1, user_id);
                    assert((#[trigger] us1[k1]).id == user_id);
                    if k1 != k {
                        assert(us1[k].id != us1[k1].id);
                        assert(false);
                    }
                    let us2 = app.db_spec().users_seq();
                    assert(us2 =~= us0.update(k, us2[k]));
                }
            }
        }
        if pw_result.is_err() {
            return Err(AppError::Unavailable);
        }
    }
    Ok(())
}

/// The CSRF-gated core of account deletion.
pub fn user_delete(
    app: &mut AppState,
    user_id: i32,
    session: &Session,
    form: &CsrfOnlyForm,
) -> (r: Result<(), AppError>)
    requires
        old(app).wf(),
    ensures
        final(app).wf(),
        final(app).db_spec().countries_seq() == old(app).db_spec().countries_seq(),
        final(app).db_spec().states_seq() == old(app).db_spec().states_seq(),
        final(app).db_spec().admins_seq() == old(app).db_spec().admins_seq(),
        final(app).countries_entry() == old(app).countries_entry(),
        final(app).state_entries() == old(app).state_entries(),
        r == Err::<(), AppError>(AppError::ValidationFailed) <==> !spec_validate_csrf(
            *session,
            form.csrf_token@,
        ),
        r is Err ==> *final(app) == *old(app),
        r is Ok ==> !has_user_id(final(app).db_spec().users_seq(), user_id),
        r is Ok && has_user_id(old(app).db_spec().users_seq(), user_id) ==> final(app).db_spec().users_seq() == old(app).db_spec().users_seq().remove(
            crate::repository::user_index(old(app).db_spec().users_seq(), user_id),
        ),
{
    if !crate::session::validate_csrf(session, form.csrf_token.as_str()) {
        return Err(AppError::ValidationFailed);
    }
    app.delete_user(user_id)
}

/// Which column a datatable's numeric column index selects.
pub open spec fn spec_column_of_index(idx: Option<i32>) -> crate::listing::OrderColumn {
    match idx {
        Some(1) => crate::listing::OrderColumn::Username,
        Some(2) => crate::listing::OrderColumn::Email,
        Some(3) => crate::listing::OrderColumn::CreatedAt,
        _ => crate::listing::OrderColumn::Id,
    }
}

/// Which direction a datatable's direction text selects: exactly "asc"
/// ascends, everything else descends.
pub open spec fn spec_direction_of_opt(dir: Option<String>) -> crate::listing::OrderDirection {
    if dir matches Some(d) && d@ == "asc"@ {
        crate::listing::OrderDirection::Asc
    } else {
        crate::listing::OrderDirection::Desc
    }
}

/// The present-and-non-empty normalization of a search parameter.
pub open spec fn spec_search_norm(sv: Option<String>) -> Option<String> {
    if sv matches Some(s) && s@.len() > 0 {
        sv
    } else {
        None
    }
}

/// The datatable listing core: maps the widget's raw parameters through
/// the allowlists, runs the unfiltered count, the filtered count and the
/// page query — the filtered total is its own count query, never derived
/// from the page size — and packs the response.
pub fn users_datatable_api(app: &AppState, params: &crate::models::DatatableParams) -> (r:
    crate::models::DatatableResponse<crate::models::User>)
    ensures
        r.draw == params.draw,
        r.records_total == app.db_spec().users_seq().len(),
        r.records_filtered == crate::listing::spec_filtered_users(
            app.db_spec().users_seq(),
            spec_search_norm(params.search_value),
        ).len(),
        crate::listing::is_page_of(
            r.data@,
            app.db_spec().users_seq(),
            spec_search_norm(params.search_value),
            spec_column_of_index(params.order_column),
            spec_direction_of_opt(params.order_dir),
            ({
                let o = match params.start {
                    Some(v) => v,
                    None => 0,
                };
                if o > 0 {
                    o as int
                } else {
                    0
                }
            }),
            ({
                let l = match params.length {
                    Some(v) => v,
                    None => 10,
                };
                if l > 0 {
                    l as int
                } else {
                    10
                }
            }),
        ),
{
    proof {
        broadcast use vstd::string::group_string_axioms;

        reveal_strlit("id");
        reveal_strlit("username");
        reveal_strlit("email");
        reveal_strlit("created_at");
        reveal_strlit("asc");
        reveal_strlit("ASC");
        reveal_strlit("desc");
    }
    let total = app.directory().get_users_count();
    let offset: i64 = match params.start {
        Some(v) => v,
        None => 0,
    };
    let limit: i64 = match params.length {
        Some(v) => v,
        None => 10,
    };
    let search: Option<String> = match &params.search_value {
        Some(s) => {
            if crate::text::str_nonempty(s.as_str()) {
                Some(s.clone())
            } else {
                None
            }
        },
        None => None,
    };
    let order_column: &str = match params.order_column {
        Some(1) => "username",
        Some(2) => "email",
        Some(3) => "created_at",
        _ => "id",
    };
    let order_direction: &str = match &params.order_dir {
        Some(d) => {
            if crate::text::str_eq(d.as_str(), "asc") {
                "asc"
            } else {
                "desc"
            }
        },
        None => "desc",
    };
    let pagination = crate::models::PaginationParams {
        offset,
        limit,
        search,
        order_column: String::from_str(order_column),
        order_direction: String::from_str(order_direction),
    };
    let users = crate::listing::get_users_paginated(app.directory(), &pagination);
    proof {
        broadcast use vstd::string::group_string_axioms;

        reveal_strlit("id");
        reveal_strlit("username");
        reveal_strlit("email");
        reveal_strlit("created_at");
        reveal_strlit("asc");
        reveal_strlit("ASC");
        reveal_strlit("desc");
        assert("id"@.len() == 2);
        assert("username"@.len() == 8);
        assert("email"@.len() == 5);
        assert("created_at"@.len() == 10);
        assert("asc"@.len() == 3);
        assert("ASC"@.len() == 3);
        assert("desc"@.len() == 4);
        assert("id"@ != "username"@ && "id"@ != "email"@ && "id"@ != "created_at"@);
        assert("username"@ != "email"@ && "username"@ != "created_at"@);
        assert("email"@ != "created_at"@);
        assert("asc"@[0] == 'a' && "ASC"@[0] == 'A');
        assert("asc"@ != "ASC"@ && "desc"@ != "asc"@ && "desc"@ != "ASC"@);
        assert(crate::listing::spec_order_column(pagination.order_column@)
            == spec_column_of_index(params.order_column));
        assert(crate::listing::spec_order_direction(pagination.order_direction@)
            == spec_direction_of_opt(params.order_dir));
        assert(pagination.search == spec_search_norm(params.search_value));
    }
    let filtered = crate::listing::get_filtered_users_count(app.directory(), &pagination.search);
    crate::models::DatatableResponse { draw: params.draw, records_total: total, records_filtered: filtered, data: users }
}

/// The administrator login core: the session must resolve, the CSRF token
/// and form must validate (`ValidationFailed` otherwise), and the username
/// must name an administrator whose stored hash verifies the password
/// (`AuthFailed` otherwise — a distinct kind, so bad credentials render
/// differently from a rejected request). On success the administrator is
/// bound into the session and the session identifier is rotated — the
/// fixation defense — preserving the end-user binding and the CSRF token.
pub fn admin_login_submit(
    db: &crate::repository::Directory,
    store: &mut crate::session::SessionStore,
    sid: u64,
    credentials: &crate::models::LoginForm,
) -> (r: Result<u64, AppError>)
    requires
        db.wf(),
        old(store).wf(),
    ensures
        final(store).wf(),
        ({
            let present = crate::session::has_sid(old(store).sessions_seq(), sid);
            let sess = crate::session::session_at(old(store).sessions_seq(), sid);
            let admin_ok = crate::repository::has_admin_username(
                db.admins_seq(),
                credentials.username@,
            ) && crate::outside::bcrypt_verifies(
                credentials.password@,
                crate::repository::admin_by_username(
                    db.admins_seq(),
                    credentials.username@,
                ).password_hash@,
            );
            let request_ok = spec_validate_csrf(sess, credentials.csrf_token@)
                && crate::models::spec_valid_login_form(*credentials);
            &&& (r == Err::<u64, AppError>(AppError::NotFound) <==> !present)
            &&& (present ==> (r == Err::<u64, AppError>(AppError::ValidationFailed)
                <==> !request_ok))
            &&& (present && request_ok ==> (r == Err::<u64, AppError>(AppError::AuthFailed)
                <==> !admin_ok))
            &&& (present && request_ok && admin_ok ==> (r == Err::<u64, AppError>(
                AppError::Unavailable,
            ) <==> old(store).sid_next() == u64::MAX))
            &&& (r is Ok <==> (present && request_ok && admin_ok && old(store).sid_next()
                < u64::MAX))
            &&& (r is Err ==> *final(store) == *old(store))
            &&& (r matches Ok(new_sid) ==> ({
                let admin = crate::repository::admin_by_username(
                    db.admins_seq(),
                    credentials.username@,
                );
                &&& new_sid == old(store).sid_next()
                &&& new_sid != sid
                &&& !crate::session::has_sid(final(store).sessions_seq(), sid)
                &&& crate::session::has_sid(final(store).sessions_seq(), new_sid)
                &&& crate::session::session_at(final(store).sessions_seq(), new_sid).admin_view()
                    == Some((admin.id, admin.username@))
                &&& crate::session::session_at(
                    final(store).sessions_seq(),
                    new_sid,
                ).account_view() == sess.account_view()
                &&& crate::session::session_at(final(store).sessions_seq(), new_sid).csrf_view()
                    == sess.csrf_view()
            }))
        }),
{
    let session = match store.session(sid) {
        Some(s) => s,
        None => {
            return Err(AppError::NotFound);
        },
    };
    if !crate::session::validate_csrf(session, credentials.csrf_token.as_str()) {
        return Err(AppError::ValidationFailed);
    }
    if !credentials.validate() {
        return Err(AppError::ValidationFailed);
    }
    let admin = match db.find_admin_by_username(credentials.username.as_str()) {
        Some(a) => a,
        None => {
            return Err(AppError::AuthFailed);
        },
    };
    if !crate::outside::verify_password_hash(
        admin.password_hash.as_str(),
        credentials.password.as_str(),
    ) {
        return Err(AppError::AuthFailed);
    }
    if !store.can_rotate() {
        return Err(AppError::Unavailable);
    }
    let mut updated = match store.session(sid) {
        Some(s) => s.clone(),
        None => {
            proof {
                assert(false);
            }
            Session::new()
        },
    };
    let admin_user = crate::session::AdminUser::new(admin.id, admin.username);
    admin_user.login(&mut updated);
    let put_ok = store.put_session(sid, updated);
    proof {
        assert(put_ok);
    }
    match store.cycle_id(sid) {
        Some(new_sid) => Ok(new_sid),
        None => {
            proof {
                assert(false);
            }
            Err(AppError::Unavailable)
        },
    }
}

/// Returns the session's CSRF token through the store, creating and
/// storing a fresh one the first time; `None` only when the identifier
/// does not resolve.
pub fn issue_or_get_csrf_token(store: &mut crate::session::SessionStore, sid: u64) -> (r: Option<
    String,
>)
    requires
        old(store).wf(),
    ensures
        final(store).wf(),
        r is None <==> !crate::session::has_sid(old(store).sessions_seq(), sid),
        r is None ==> *final(store) == *old(store),
        r matches Some(t) ==> ({
            let before = crate::session::session_at(old(store).sessions_seq(), sid);
            let after = crate::session::session_at(final(store).sessions_seq(), sid);
            &&& crate::session::has_sid(final(store).sessions_seq(), sid)
            &&& after.csrf_view() == Some(t@)
            &&& after.account_view() == before.account_view()
            &&& after.admin_view() == before.admin_view()
            &&& (before.csrf_view() matches Some(x) ==> x == t@ && final(store).sessions_seq()
                == old(store).sessions_seq())
            &&& (forall|other: u64|
                other != sid && crate::session::has_sid(old(store).sessions_seq(), other)
                    ==> crate::session::has_sid(final(store).sessions_seq(), other)
                    && crate::session::session_at(final(store).sessions_seq(), other)
                    == crate::session::session_at(old(store).sessions_seq(), other))
        }),
{
    let mut updated = match store.session(sid) {
        Some(s) => s.clone(),
        None => {
            return None;
        },
    };
    let token = crate::session::ensure_csrf_token(&mut updated);
    let ghost before_store = store.sessions_seq();
    let ghost k = crate::session::sid_index(before_store, sid);
    let put_ok = store.put_session(sid, updated);
    proof {
        assert(put_ok);
        if crate::session::session_at(before_store, sid).csrf_view() is Some {
            assert(store.sessions_seq() =~= before_store) by {
                assert(updated == crate::session::session_at(before_store, sid));
                assert(store.sessions_seq() == before_store.update(k, (sid, updated)));
                assert((#[trigger] before_store[k]).0 == sid);
            }
        }
    }
    Some(token)
}

/// Clears the administrator binding of a session, leaving the end-user
/// binding and the CSRF token; reports whether the identifier resolved.
pub fn admin_logout(store: &mut crate::session::SessionStore, sid: u64) -> (r: bool)
    requires
        old(store).wf(),
    ensures
        final(store).wf(),
        r == crate::session::has_sid(old(store).sessions_seq(), sid),
        !r ==> *final(store) == *old(store),
        r ==> ({
            let before = crate::session::session_at(old(store).sessions_seq(), sid);
            let after = crate::session::session_at(final(store).sessions_seq(), sid);
            &&& crate::session::has_sid(final(store).sessions_seq(), sid)
            &&& after.admin_view() is None
            &&& after.account_view() == before.account_view()
            &&& after.csrf_view() == before.csrf_view()
        }),
{
    let mut updated = match store.session(sid) {
        Some(s) => s.clone(),
        None => {
            return false;
        },
    };
    crate::session::AdminUser::logout(&mut updated);
    let put_ok = store.put_session(sid, updated);
    proof {
        assert(put_ok);
    }
    true
}

/// Clears the end-user binding of a session, leaving the administrator
/// binding and the CSRF token; reports whether the identifier resolved.
pub fn logout(store: &mut crate::session::SessionStore, sid: u64) -> (r: bool)
    requires
        old(store).wf(),
    ensures
        final(store).wf(),
        r == crate::session::has_sid(old(store).sessions_seq(), sid),
        !r ==> *final(store) == *old(store),
        r ==> ({
            let before = crate::session::session_at(old(store).sessions_seq(), sid);
            let after = crate::session::session_at(final(store).sessions_seq(), sid);
            &&& crate::session::has_sid(final(store).sessions_seq(), sid)
            &&& after.account_view() is None
            &&& after.admin_view() == before.admin_view()
            &&& after.csrf_view() == before.csrf_view()
        }),
{
    let mut updated = match store.session(sid) {
        Some(s) => s.clone(),
        None => {
            return false;
        },
    };
    crate::session::AuthUser::logout(&mut updated);
    let put_ok = store.put_session(sid, updated);
    proof {
        assert(put_ok);
    }
    true
}

} // verus!
