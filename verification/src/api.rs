//! The datatable listing endpoint in its wire-facing shape: raw request
//! parameters in, a response of row views with the total and the filtered
//! counts out. Unlike the administrative listing core, this endpoint
//! reports the filtered count from its own count query and trims the
//! search text before deciding whether a search is active.

use vstd::prelude::*;
use vstd::string::StringExecFns;
use crate::cache::AppState;
use crate::listing::{
    OrderColumn, OrderDirection, is_page_of_v, spec_filtered_users_v, spec_order_direction,
};
use crate::models::{DataTablesRequest, DataTablesResponseLegacy, PaginationParams, User, UserRow};
use crate::outside::trimmed;
use crate::text::dec_seq;

verus! {

/// Which column the request's first ordering entry selects.
pub open spec fn spec_requested_column(r: DataTablesRequest) -> OrderColumn {
    if r.order@.len() > 0 {
        if r.order@[0].column == 1 {
            OrderColumn::Username
        } else if r.order@[0].column == 2 {
            OrderColumn::Email
        } else if r.order@[0].column == 3 {
            OrderColumn::CreatedAt
        } else {
            OrderColumn::Id
        }
    } else {
        OrderColumn::Id
    }
}

/// Which direction the request's first ordering entry selects.
pub open spec fn spec_requested_direction(r: DataTablesRequest) -> OrderDirection {
    if r.order@.len() > 0 {
        spec_order_direction(r.order@[0].dir@)
    } else {
        OrderDirection::Desc
    }
}

/// The response rows carry the same ids, names, emails and decimal-
/// rendered timestamps as the page rows, in order.
pub open spec fn rows_match(rows: Seq<UserRow>, page: Seq<User>) -> bool {
    rows.len() == page.len() && forall|i: int|
        0 <= i < page.len() ==> (#[trigger] rows[i]).id == page[i].id && rows[i].username@
            == page[i].username@ && rows[i].email@ == page[i].email@ && rows[i].created_at@
            == dec_seq(page[i].created_at as nat)
}

/// The datatable listing endpoint core: the search text is trimmed, the
/// ordering request is mapped through the allowlists, both counts are
/// computed, and one page of rows is rendered.
pub fn users_datatable_api(app: &AppState, request: &DataTablesRequest) -> (r:
    DataTablesResponseLegacy)
    ensures
        r.draw == request.draw,
        r.records_total == app.db_spec().users_seq().len(),
        r.records_filtered == spec_filtered_users_v(
            app.db_spec().users_seq(),
            Some(trimmed(request.search.value@)),
        ).len(),
        exists|page: Seq<User>|
            #![trigger rows_match(r.data@, page)]
            is_page_of_v(
                page,
                app.db_spec().users_seq(),
                Some(trimmed(request.search.value@)),
                spec_requested_column(*request),
                spec_requested_direction(*request),
                if request.start > 0 {
                    request.start as int
                } else {
                    0
                },
                if request.length > 0 {
                    request.length as int
                } else {
                    10
                },
            ) && rows_match(r.data@, page),
{
    let trimmed_search = crate::outside::str_trim(request.search.value.as_str());
    let search_opt: Option<String> = if crate::text::str_nonempty(trimmed_search.as_str()) {
        Some(trimmed_search)
    } else {
        None
    };
    let order_column: &str = if request.order.len() > 0 {
        let c = request.order[0].column;
        if c == 1 {
            "username"
        } else if c == 2 {
            "email"
        } else if c == 3 {
            "created_at"
        } else {
            "id"
        }
    } else {
        "id"
    };
    let order_direction: String = if request.order.len() > 0 {
        request.order[0].dir.clone()
    } else {
        String::from_str("desc")
    };
    let params = PaginationParams {
        offset: request.start,
        limit: request.length,
        search: search_opt,
        order_column: String::from_str(order_column),
        order_direction,
    };
    let total = app.directory().get_users_count();
    let filtered = crate::listing::get_filtered_users_count(app.directory(), &params.search);
    let users = crate::listing::get_users_paginated(app.directory(), &params);
    proof {
        broadcast use vstd::string::group_string_axioms;

        reveal_strlit("id");
        reveal_strlit("username");
        reveal_strlit("email");
        reveal_strlit("created_at");
        reveal_strlit("desc");
        reveal_strlit("asc");
        reveal_strlit("ASC");
        assert("id"@.len() == 2);
        assert("username"@.len() == 8);
        assert("email"@.len() == 5);
        assert("created_at"@.len() == 10);
        assert("desc"@.len() == 4);
        assert("asc"@.len() == 3);
        assert("ASC"@.len() == 3);
        assert("id"@ != "username"@ && "id"@ != "email"@ && "id"@ != "created_at"@);
        assert(crate::listing::spec_order_column(params.order_column@) == spec_requested_column(
            *request,
        ));
        assert(crate::listing::spec_order_direction(params.order_direction@)
            == spec_requested_direction(*request));
        assert(crate::listing::opt_view(params.search) =~= ({
            if trimmed(request.search.value@).len() > 0 {
                Some(trimmed(request.search.value@))
            } else {
                None
            }
        }));
        assert(spec_filtered_users_v(
            app.db_spec().users_seq(),
            crate::listing::opt_view(params.search),
        ) =~= spec_filtered_users_v(
            app.db_spec().users_seq(),
            Some(trimmed(request.search.value@)),
        ));
    }
    let ghost page_view = users@;
    proof {
        let us = app.db_spec().users_seq();
        let target = Some(trimmed(request.search.value@));
        let col = spec_requested_column(*request);
        let dir = spec_requested_direction(*request);
        let off: int = if request.start > 0 {
            request.start as int
        } else {
            0
        };
        let lim: int = if request.length > 0 {
            request.length as int
        } else {
            10
        };
        assert(is_page_of_v(page_view, us, crate::listing::opt_view(params.search), col, dir, off, lim));
        let sorted = choose|sorted: Seq<User>|
            #![auto]
            sorted.to_multiset() == spec_filtered_users_v(
                us,
                crate::listing::opt_view(params.search),
            ).to_multiset() && sorted.len() == spec_filtered_users_v(
                us,
                crate::listing::opt_view(params.search),
            ).len() && crate::listing::sorted_users(sorted, col, dir) && page_view
                == sorted.subrange(
                crate::listing::page_bounds(sorted.len() as int, off, lim).0,
                crate::listing::page_bounds(sorted.len() as int, off, lim).1,
            );
        assert(spec_filtered_users_v(us, target) == spec_filtered_users_v(
            us,
            crate::listing::opt_view(params.search),
        ));
        assert(sorted.to_multiset() == spec_filtered_users_v(us, target).to_multiset()
            && sorted.len() == spec_filtered_users_v(us, target).len()
            && crate::listing::sorted_users(sorted, col, dir) && page_view == sorted.subrange(
            crate::listing::page_bounds(sorted.len() as int, off, lim).0,
            crate::listing::page_bounds(sorted.len() as int, off, lim).1,
        ));
        assert(is_page_of_v(page_view, us, target, col, dir, off, lim));
    }
    let n = users.len();
    let mut data: Vec<UserRow> = Vec::new();
    let mut i: usize = 0;
    while i < n
        invariant
            n == page_view.len(),
            users@ == page_view,
            i <= n,
            data@.len() == i,
            forall|j: int|
                0 <= j < i ==> (#[trigger] data@[j]).id == page_view[j].id && data@[j].username@
                    == page_view[j].username@ && data@[j].email@ == page_view[j].email@
                    && data@[j].created_at@ == dec_seq(page_view[j].created_at as nat),
        decreases n - i,
    {
        let u = users[i].clone();
        data.push(
            UserRow {
                id: u.id,
                username: u.username,
                email: u.email,
                created_at: crate::text::u64_to_dec(u.created_at),
            },
        );
        i += 1;
    }
    proof {
        assert(rows_match(data@, page_view));
        assert(is_page_of_v(
            page_view,
            app.db_spec().users_seq(),
            Some(trimmed(request.search.value@)),
            spec_requested_column(*request),
            spec_requested_direction(*request),
            if request.start > 0 {
                request.start as int
            } else {
                0
            },
            if request.length > 0 {
                request.length as int
            } else {
                10
            },
        ));
    }
    let resp = DataTablesResponseLegacy {
        draw: request.draw,
        records_total: total,
        records_filtered: filtered,
        data,
    };
    proof {
        assert(rows_match(resp.data@, page_view));
        assert(exists|page: Seq<User>|
            #![trigger rows_match(resp.data@, page)]
            is_page_of_v(
                page,
                app.db_spec().users_seq(),
                Some(trimmed(request.search.value@)),
                spec_requested_column(*request),
                spec_requested_direction(*request),
                if request.start > 0 {
                    request.start as int
                } else {
                    0
                },
                if request.length > 0 {
                    request.length as int
                } else {
                    10
                },
            ) && rows_match(resp.data@, page));
    }
    resp
}

} // verus!
