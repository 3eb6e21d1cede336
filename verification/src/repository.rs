//! The persistence gateway modelled as an in-memory directory of countries,
//! states, accounts and administrators. The real deployment keeps these
//! tables in a relational store behind asynchronous transport; the rules the
//! store enforces — identity columns, unique names and credentials, the
//! name-ordered reference lists, and the referential facts the delete guards
//! count — are stated here as the directory's well-formedness invariant and
//! as the contracts of its operations.

use vstd::prelude::*;
use vstd::string::StringExecFns;
use crate::errors::AppError;
use crate::models::{Admin, Country, State, StateWithCountry, User};
use crate::text::{seq_le, str_eq, str_le, lemma_seq_le_total, lemma_seq_le_trans};

verus! {

// ---------------------------------------------------------------------------
// Helper predicates over the stored tables.

pub open spec fn sorted_country_names(cs: Seq<Country>) -> bool {
    forall|i: int, j: int|
        0 <= i < j < cs.len() ==> seq_le(#[trigger] cs[i].name@, #[trigger] cs[j].name@)
}

pub open spec fn unique_country_ids(cs: Seq<Country>) -> bool {
    forall|i: int, j: int| 0 <= i < j < cs.len() ==> (#[trigger] cs[i]).id != (#[trigger] cs[j]).id
}

pub open spec fn unique_country_names(cs: Seq<Country>) -> bool {
    forall|i: int, j: int|
        0 <= i < j < cs.len() ==> (#[trigger] cs[i]).name@ != (#[trigger] cs[j]).name@
}

pub open spec fn has_country_id(cs: Seq<Country>, id: i32) -> bool {
    exists|i: int| 0 <= i < cs.len() && (#[trigger] cs[i]).id == id
}

pub open spec fn has_country_name(cs: Seq<Country>, n: Seq<char>) -> bool {
    exists|i: int| 0 <= i < cs.len() && (#[trigger] cs[i]).name@ == n
}

pub open spec fn country_index(cs: Seq<Country>, id: i32) -> int {
    choose|i: int| 0 <= i < cs.len() && (#[trigger] cs[i]).id == id
}

/// The country holding a given id; meaningful under `has_country_id`.
pub open spec fn country_by_id(cs: Seq<Country>, id: i32) -> Country {
    cs[country_index(cs, id)]
}

pub open spec fn countries_wf(cs: Seq<Country>, next: i32) -> bool {
    &&& next >= 1
    &&& forall|i: int| 0 <= i < cs.len() ==> 1 <= (#[trigger] cs[i]).id < next
    &&& unique_country_ids(cs)
    &&& unique_country_names(cs)
    &&& sorted_country_names(cs)
}

pub open spec fn sorted_state_names(ss: Seq<State>) -> bool {
    forall|i: int, j: int|
        0 <= i < j < ss.len() ==> seq_le(#[trigger] ss[i].name@, #[trigger] ss[j].name@)
}

pub open spec fn unique_state_ids(ss: Seq<State>) -> bool {
    forall|i: int, j: int| 0 <= i < j < ss.len() ==> (#[trigger] ss[i]).id != (#[trigger] ss[j]).id
}

pub open spec fn has_state_id(ss: Seq<State>, id: i32) -> bool {
    exists|i: int| 0 <= i < ss.len() && (#[trigger] ss[i]).id == id
}

pub open spec fn state_index(ss: Seq<State>, id: i32) -> int {
    choose|i: int| 0 <= i < ss.len() && (#[trigger] ss[i]).id == id
}

/// The state holding a given id; meaningful under `has_state_id`.
pub open spec fn state_by_id(ss: Seq<State>, id: i32) -> State {
    ss[state_index(ss, id)]
}

/// The states of one country, in stored (name) order.
pub open spec fn states_of_country(ss: Seq<State>, country_id: i32) -> Seq<State> {
    ss.filter(|s: State| s.country_id == country_id)
}

pub open spec fn states_wf(ss: Seq<State>, cs: Seq<Country>, next: i32) -> bool {
    &&& next >= 1
    &&& forall|i: int| 0 <= i < ss.len() ==> 1 <= (#[trigger] ss[i]).id < next
    &&& unique_state_ids(ss)
    &&& sorted_state_names(ss)
    &&& forall|i: int| 0 <= i < ss.len() ==> has_country_id(cs, (#[trigger] ss[i]).country_id)
}

pub open spec fn unique_user_ids(us: Seq<User>) -> bool {
    forall|i: int, j: int| 0 <= i < j < us.len() ==> (#[trigger] us[i]).id != (#[trigger] us[j]).id
}

pub open spec fn unique_usernames(us: Seq<User>) -> bool {
    forall|i: int, j: int|
        0 <= i < j < us.len() ==> (#[trigger] us[i]).username@ != (#[trigger] us[j]).username@
}

pub open spec fn unique_user_emails(us: Seq<User>) -> bool {
    forall|i: int, j: int|
        0 <= i < j < us.len() ==> (#[trigger] us[i]).email@ != (#[trigger] us[j]).email@
}

pub open spec fn has_user_id(us: Seq<User>, id: i32) -> bool {
    exists|i: int| 0 <= i < us.len() && (#[trigger] us[i]).id == id
}

pub open spec fn has_username(us: Seq<User>, n: Seq<char>) -> bool {
    exists|i: int| 0 <= i < us.len() && (#[trigger] us[i]).username@ == n
}

pub open spec fn has_user_email(us: Seq<User>, n: Seq<char>) -> bool {
    exists|i: int| 0 <= i < us.len() && (#[trigger] us[i]).email@ == n
}

pub open spec fn user_index(us: Seq<User>, id: i32) -> int {
    choose|i: int| 0 <= i < us.len() && (#[trigger] us[i]).id == id
}

/// The account holding a given id; meaningful under `has_user_id`.
pub open spec fn user_by_id(us: Seq<User>, id: i32) -> User {
    us[user_index(us, id)]
}

pub open spec fn username_index(us: Seq<User>, n: Seq<char>) -> int {
    choose|i: int| 0 <= i < us.len() && (#[trigger] us[i]).username@ == n
}

/// The account holding a given username; meaningful under `has_username`.
pub open spec fn user_by_username(us: Seq<User>, n: Seq<char>) -> User {
    us[username_index(us, n)]
}

/// How many accounts reference a country.
pub open spec fn users_of_country(us: Seq<User>, country_id: i32) -> Seq<User> {
    us.filter(|u: User| u.country_id == Some(country_id))
}

/// How many accounts reference a state.
pub open spec fn users_of_state(us: Seq<User>, state_id: i32) -> Seq<User> {
    us.filter(|u: User| u.state_id == Some(state_id))
}

pub open spec fn users_wf(us: Seq<User>, cs: Seq<Country>, ss: Seq<State>, next: i32) -> bool {
    &&& next >= 1
    &&& forall|i: int| 0 <= i < us.len() ==> 1 <= (#[trigger] us[i]).id < next
    &&& unique_user_ids(us)
    &&& unique_usernames(us)
    &&& unique_user_emails(us)
    &&& forall|i: int|
        0 <= i < us.len() ==> ((#[trigger] us[i]).country_id matches Some(c) ==> has_country_id(
            cs,
            c,
        ))
    &&& forall|i: int|
        0 <= i < us.len() ==> ((#[trigger] us[i]).state_id matches Some(s) ==> has_state_id(
            ss,
            s,
        ))
}

pub open spec fn unique_admin_ids(ads: Seq<Admin>) -> bool {
    forall|i: int, j: int|
        0 <= i < j < ads.len() ==> (#[trigger] ads[i]).id != (#[trigger] ads[j]).id
}

pub open spec fn unique_admin_usernames(ads: Seq<Admin>) -> bool {
    forall|i: int, j: int|
        0 <= i < j < ads.len() ==> (#[trigger] ads[i]).username@ != (#[trigger] ads[j]).username@
}

pub open spec fn has_admin_id(ads: Seq<Admin>, id: i32) -> bool {
    exists|i: int| 0 <= i < ads.len() && (#[trigger] ads[i]).id == id
}

pub open spec fn has_admin_username(ads: Seq<Admin>, n: Seq<char>) -> bool {
    exists|i: int| 0 <= i < ads.len() && (#[trigger] ads[i]).username@ == n
}

pub open spec fn admin_index(ads: Seq<Admin>, n: Seq<char>) -> int {
    choose|i: int| 0 <= i < ads.len() && (#[trigger] ads[i]).username@ == n
}

/// The administrator holding a given username; meaningful under
/// `has_admin_username`.
pub open spec fn admin_by_username(ads: Seq<Admin>, n: Seq<char>) -> Admin {
    ads[admin_index(ads, n)]
}

pub open spec fn admin_id_index(ads: Seq<Admin>, id: i32) -> int {
    choose|i: int| 0 <= i < ads.len() && (#[trigger] ads[i]).id == id
}

/// The administrator holding a given id; meaningful under `has_admin_id`.
pub open spec fn admin_by_id(ads: Seq<Admin>, id: i32) -> Admin {
    ads[admin_id_index(ads, id)]
}

pub open spec fn unique_admin_emails(ads: Seq<Admin>) -> bool {
    forall|i: int, j: int|
        0 <= i < j < ads.len() ==> (#[trigger] ads[i]).email@ != (#[trigger] ads[j]).email@
}

pub open spec fn has_admin_email(ads: Seq<Admin>, n: Seq<char>) -> bool {
    exists|i: int| 0 <= i < ads.len() && (#[trigger] ads[i]).email@ == n
}

pub open spec fn admins_wf(ads: Seq<Admin>, next: i32) -> bool {
    &&& next >= 1
    &&& forall|i: int| 0 <= i < ads.len() ==> 1 <= (#[trigger] ads[i]).id < next
    &&& unique_admin_ids(ads)
    &&& unique_admin_usernames(ads)
    &&& unique_admin_emails(ads)
}

// ---------------------------------------------------------------------------
// The directory itself.

pub struct Directory {
    countries: Vec<Country>,
    states: Vec<State>,
    users: Vec<User>,
    admins: Vec<Admin>,
    next_country_id: i32,
    next_state_id: i32,
    next_user_id: i32,
    next_admin_id: i32,
}

impl Directory {
    pub closed spec fn countries_seq(&self) -> Seq<Country> {
        self.countries@
    }

    pub closed spec fn states_seq(&self) -> Seq<State> {
        self.states@
    }

    pub closed spec fn users_seq(&self) -> Seq<User> {
        self.users@
    }

    pub closed spec fn admins_seq(&self) -> Seq<Admin> {
        self.admins@
    }

    pub closed spec fn country_next(&self) -> i32 {
        self.next_country_id
    }

    pub closed spec fn state_next(&self) -> i32 {
        self.next_state_id
    }

    pub closed spec fn user_next(&self) -> i32 {
        self.next_user_id
    }

    pub closed spec fn admin_next(&self) -> i32 {
        self.next_admin_id
    }

    pub open spec fn can_add_country(&self) -> bool {
        self.country_next() < i32::MAX
    }

    pub open spec fn can_add_state(&self) -> bool {
        self.state_next() < i32::MAX
    }

    pub open spec fn can_add_user(&self) -> bool {
        self.user_next() < i32::MAX
    }

    pub open spec fn can_add_admin(&self) -> bool {
        self.admin_next() < i32::MAX
    }

    pub open spec fn wf(&self) -> bool {
        &&& countries_wf(self.countries_seq(), self.country_next())
        &&& states_wf(self.states_seq(), self.countries_seq(), self.state_next())
        &&& users_wf(self.users_seq(), self.countries_seq(), self.states_seq(), self.user_next())
        &&& admins_wf(self.admins_seq(), self.admin_next())
    }

    /// An empty directory: no rows, identity counters starting at one.
    pub fn new() -> (r: Directory)
        ensures
            r.wf(),
            r.countries_seq() =~= Seq::<Country>::empty(),
            r.states_seq() =~= Seq::<State>::empty(),
            r.users_seq() =~= Seq::<User>::empty(),
            r.admins_seq() =~= Seq::<Admin>::empty(),
            r.country_next() == 1,
            r.state_next() == 1,
            r.user_next() == 1,
            r.admin_next() == 1,
    {
        Directory {
            countries: Vec::new(),
            states: Vec::new(),
            users: Vec::new(),
            admins: Vec::new(),
            next_country_id: 1,
            next_state_id: 1,
            next_user_id: 1,
            next_admin_id: 1,
        }
    }

    /// All countries, in stored (name) order.
    pub fn get_countries(&self) -> (r: Vec<Country>)
        ensures
            r@ == self.countries_seq(),
    {
        let mut out: Vec<Country> = Vec::new();
        let n = self.countries.len();
        let mut i: usize = 0;
        while i < n
            invariant
                n == self.countries@.len(),
                i <= n,
                out@ == self.countries@.take(i as int),
            decreases n - i,
        {
            out.push(self.countries[i].clone());
            proof {
                assert(self.countries@.take(i + 1) =~= self.countries@.take(i as int).push(
                    self.countries@[i as int],
                ));
            }
            i += 1;
        }
        proof {
            assert(self.countries@.take(n as int) =~= self.countries@);
        }
        out
    }

    /// Point lookup of a country by id.
    pub fn get_country_by_id(&self, country_id: i32) -> (r: Option<Country>)
        requires
            self.wf(),
        ensures
            r matches Some(c) ==> has_country_id(self.countries_seq(), country_id) && c
                == country_by_id(self.countries_seq(), country_id) && c.id == country_id,
            r is None ==> !has_country_id(self.countries_seq(), country_id),
    {
        let n = self.countries.len();
        let mut i: usize = 0;
        while i < n
            invariant
                self.wf(),
                n == self.countries@.len(),
                i <= n,
                forall|j: int| 0 <= j < i ==> (#[trigger] self.countries@[j]).id != country_id,
            decreases n - i,
        {
            if self.countries[i].id == country_id {
                proof {
                    assert(has_country_id(self.countries_seq(), country_id));
                    let k = country_index(self.countries_seq(), country_id);
                    if k != i as int {
                        assert((#[trigger] self.countries@[k]).id == country_id);
                        assert(false);
                    }
                }
                return Some(self.countries[i].clone());
            }
            i += 1;
        }
        None
    }

    fn country_insert_pos(&self, name: &str) -> (p: usize)
        ensures
            p <= self.countries_seq().len(),
            forall|j: int|
                0 <= j < p ==> !seq_le(name@, (#[trigger] self.countries_seq()[j]).name@),
            p < self.countries_seq().len() ==> seq_le(name@, self.countries_seq()[p as int].name@),
    {
        let n = self.countries.len();
        let mut p: usize = 0;
        while p < n
            invariant
                n == self.countries@.len(),
                p <= n,
                forall|j: int| 0 <= j < p ==> !seq_le(name@, (#[trigger] self.countries@[j]).name@),
            decreases n - p,
        {
            if str_le(name, self.countries[p].name.as_str()) {
                return p;
            }
            p += 1;
        }
        p
    }

    /// Creates a country with a fresh identity, keeping the list ordered by
    /// name. A country already holding the name refuses with `Conflict`;
    /// an exhausted identity space reports `Unavailable`.
    pub fn create_country(&mut self, name: &str) -> (r: Result<i32, AppError>)
        requires
            old(self).wf(),
        ensures
            final(self).wf(),
            final(self).states_seq() == old(self).states_seq(),
            final(self).users_seq() == old(self).users_seq(),
            final(self).admins_seq() == old(self).admins_seq(),
            final(self).state_next() == old(self).state_next(),
            final(self).user_next() == old(self).user_next(),
            final(self).admin_next() == old(self).admin_next(),
            (r matches Ok(id) && id == old(self).country_next()) <==> (!has_country_name(
                old(self).countries_seq(),
                name@,
            ) && old(self).can_add_country()),
            r == Err::<i32, AppError>(AppError::Conflict) <==> has_country_name(
                old(self).countries_seq(),
                name@,
            ),
            r is Err ==> r == Err::<i32, AppError>(AppError::Conflict) || r == Err::<
                i32,
                AppError,
            >(AppError::Unavailable),
            r is Err ==> *final(self) == *old(self),
            r matches Ok(id) ==> final(self).country_next() == old(self).country_next() + 1
                && exists|p: int, c: Country|
                0 <= p <= old(self).countries_seq().len() && c.id == id && c.name@ == name@
                    && final(self).countries_seq() == old(self).countries_seq().insert(p, c),
    {
        let ghost cs = self.countries@;
        let n = self.countries.len();
        let mut i: usize = 0;
        while i < n
            invariant
                *self == *old(self),
                old(self).wf(),
                n == self.countries@.len(),
                i <= n,
                cs == self.countries@,
                forall|j: int| 0 <= j < i ==> (#[trigger] self.countries@[j]).name@ != name@,
            decreases n - i,
        {
            if str_eq(self.countries[i].name.as_str(), name) {
                proof {
                    assert(has_country_name(cs, name@));
                }
                return Err(AppError::Conflict);
            }
            i += 1;
        }
        assert(!has_country_name(cs, name@));
        if self.next_country_id == i32::MAX {
            return Err(AppError::Unavailable);
        }
        let id = self.next_country_id;
        let p = self.country_insert_pos(name);
        let c = Country { id, name: String::from_str(name) };
        self.countries.insert(p, c);
        self.next_country_id = id + 1;
        proof {
            let new_cs = self.countries@;
            cs.insert_ensures(p as int, c);
            assert forall|a: int, b: int| 0 <= a < b < new_cs.len() implies seq_le(
                (#[trigger] new_cs[a]).name@,
                (#[trigger] new_cs[b]).name@,
            ) by {
                lemma_country_order_after_insert(cs, new_cs, p as int, c, a, b);
            }
            assert forall|a: int| 0 <= a < new_cs.len() implies 1 <= (#[trigger] new_cs[a]).id
                < self.next_country_id by {
                if a < p {
                    assert(new_cs[a] == cs[a]);
                } else if a > p {
                    assert(new_cs[a] == cs[a - 1]);
                }
            }
            assert forall|a: int, b: int| 0 <= a < b < new_cs.len() implies (#[trigger]
            new_cs[a]).id != (#[trigger] new_cs[b]).id && new_cs[a].name@ != new_cs[b].name@ by {
                lemma_country_distinct_after_insert(cs, new_cs, p as int, c, a, b);
            }
            assert forall|a: int| 0 <= a < self.states@.len() implies has_country_id(
                new_cs,
                (#[trigger] self.states@[a]).country_id,
            ) by {
                lemma_insert_preserves_has_country_id(
                    cs,
                    new_cs,
                    p as int,
                    c,
                    self.states@[a].country_id,
                );
            }
            assert forall|a: int|
                0 <= a < self.users@.len() implies ((#[trigger] self.users@[a]).country_id matches
            Some(cid) ==> has_country_id(new_cs, cid)) by {
                if self.users@[a].country_id is Some {
                    lemma_insert_preserves_has_country_id(
                        cs,
                        new_cs,
                        p as int,
                        c,
                        self.users@[a].country_id->0,
                    );
                }
            }
        }
        Ok(id)
    }

    fn find_country_pos(&self, country_id: i32) -> (r: Option<usize>)
        ensures
            r matches Some(i) ==> i < self.countries_seq().len()
                && self.countries_seq()[i as int].id == country_id,
            r is None ==> !has_country_id(self.countries_seq(), country_id),
    {
        let n = self.countries.len();
        let mut i: usize = 0;
        while i < n
            invariant
                n == self.countries@.len(),
                i <= n,
                forall|j: int| 0 <= j < i ==> (#[trigger] self.countries@[j]).id != country_id,
            decreases n - i,
        {
            if self.countries[i].id == country_id {
                return Some(i);
            }
            i += 1;
        }
        None
    }

    /// Renames a country, keeping the list ordered. Renaming to a name some
    /// other country holds refuses with `Conflict`; a missing id leaves the
    /// directory unchanged, as an update of no rows.
    pub fn update_country(&mut self, country_id: i32, name: &str) -> (r: Result<(), AppError>)
        requires
            old(self).wf(),
        ensures
            final(self).wf(),
            final(self).states_seq() == old(self).states_seq(),
            final(self).users_seq() == old(self).users_seq(),
            final(self).admins_seq() == old(self).admins_seq(),
            final(self).country_next() == old(self).country_next(),
            final(self).state_next() == old(self).state_next(),
            final(self).user_next() == old(self).user_next(),
            final(self).admin_next() == old(self).admin_next(),
            r is Ok <==> !other_country_has_name(old(self).countries_seq(), country_id, name@),
            r == Err::<(), AppError>(AppError::Conflict) <==> other_country_has_name(
                old(self).countries_seq(),
                country_id,
                name@,
            ),
            r is Err ==> *final(self) == *old(self),
            r is Ok && !has_country_id(old(self).countries_seq(), country_id) ==> *final(self)
                == *old(self),
            r is Ok && has_country_id(old(self).countries_seq(), country_id) ==> exists|
                p: int,
                c: Country,
            |
                0 <= p <= old(self).countries_seq().len() - 1 && c.id == country_id && c.name@
                    == name@ && final(self).countries_seq() == old(self).countries_seq().remove(
                    country_index(old(self).countries_seq(), country_id),
                ).insert(p, c),
    {
        let ghost cs = self.countries@;
        let n = self.countries.len();
        let mut i: usize = 0;
        while i < n
            invariant
                *self == *old(self),
                old(self).wf(),
                n == self.countries@.len(),
                i <= n,
                cs == self.countries@,
                forall|j: int|
                    0 <= j < i ==> !((#[trigger] self.countries@[j]).name@ == name@
                        && self.countries@[j].id != country_id),
            decreases n - i,
        {
            if self.countries[i].id != country_id && str_eq(self.countries[i].name.as_str(), name)
            {
                proof {
                    assert(other_country_has_name(cs, country_id, name@));
                }
                return Err(AppError::Conflict);
            }
            i += 1;
        }
        assert(!other_country_has_name(cs, country_id, name@));
        let k = match self.find_country_pos(country_id) {
            Some(k) => k,
            None => {
                return Ok(());
            },
        };
        proof {
            assert(has_country_id(cs, country_id)) by {
                assert((#[trigger] cs[k as int]).id == country_id);
            }
            let ki = country_index(cs, country_id);
            assert((#[trigger] cs[ki]).id == country_id);
            if ki != k as int {
                assert(false);
            }
        }
        self.countries.remove(k);
        let ghost rs = self.countries@;
        proof {
            cs.remove_ensures(k as int);
            assert forall|j: int| 0 <= j < rs.len() implies (#[trigger] rs[j]).id != country_id
                && rs[j].name@ != name@ by {
                if j < k as int {
                    assert(rs[j] == cs[j]);
                } else {
                    assert(rs[j] == cs[j + 1]);
                }
            }
            assert forall|a: int, b: int| 0 <= a < b < rs.len() implies seq_le(
                (#[trigger] rs[a]).name@,
                (#[trigger] rs[b]).name@,
            ) && rs[a].id != rs[b].id && rs[a].name@ != rs[b].name@ by {
                lemma_remove_pairwise(cs, rs, k as int, a, b);
            }
        }
        let p = self.country_insert_pos(name);
        let c = Country { id: country_id, name: String::from_str(name) };
        self.countries.insert(p, c);
        proof {
            let new_cs = self.countries@;
            rs.insert_ensures(p as int, c);
            assert forall|a: int, b: int| 0 <= a < b < new_cs.len() implies seq_le(
                (#[trigger] new_cs[a]).name@,
                (#[trigger] new_cs[b]).name@,
            ) by {
                lemma_country_order_after_insert(rs, new_cs, p as int, c, a, b);
            }
            assert forall|a: int| 0 <= a < new_cs.len() implies 1 <= (#[trigger] new_cs[a]).id
                < self.next_country_id by {
                if a < p {
                    assert(new_cs[a] == rs[a]);
                } else if a > p {
                    assert(new_cs[a] == rs[a - 1]);
                }
                assert(1 <= cs[k as int].id < self.next_country_id);
            }
            assert forall|a: int, b: int| 0 <= a < b < new_cs.len() implies (#[trigger]
            new_cs[a]).id != (#[trigger] new_cs[b]).id && new_cs[a].name@ != new_cs[b].name@ by {
                lemma_country_distinct_after_insert(rs, new_cs, p as int, c, a, b);
            }
            assert forall|a: int| 0 <= a < self.states@.len() implies has_country_id(
                new_cs,
                (#[trigger] self.states@[a]).country_id,
            ) by {
                lemma_remove_insert_same_id_keeps_ids(
                    cs,
                    rs,
                    new_cs,
                    k as int,
                    p as int,
                    c,
                    self.states@[a].country_id,
                );
            }
            assert forall|a: int|
                0 <= a < self.users@.len() implies ((#[trigger] self.users@[a]).country_id matches
            Some(cid) ==> has_country_id(new_cs, cid)) by {
                if self.users@[a].country_id is Some {
                    lemma_remove_insert_same_id_keeps_ids(
                        cs,
                        rs,
                        new_cs,
                        k as int,
                        p as int,
                        c,
                        self.users@[a].country_id->0,
                    );
                }
            }
        }
        Ok(())
    }

    /// Deletes a country row. The caller is responsible for the referential
    /// guard: no state and no account may still reference the id. A missing
    /// id deletes no rows and is not an error.
    pub fn delete_country(&mut self, country_id: i32) -> (r: Result<(), AppError>)
        requires
            old(self).wf(),
            states_of_country(old(self).states_seq(), country_id).len() == 0,
            users_of_country(old(self).users_seq(), country_id).len() == 0,
        ensures
            final(self).wf(),
            final(self).states_seq() == old(self).states_seq(),
            final(self).users_seq() == old(self).users_seq(),
            final(self).admins_seq() == old(self).admins_seq(),
            final(self).country_next() == old(self).country_next(),
            final(self).state_next() == old(self).state_next(),
            final(self).user_next() == old(self).user_next(),
            final(self).admin_next() == old(self).admin_next(),
            r is Ok,
            !has_country_id(old(self).countries_seq(), country_id) ==> *final(self) == *old(self),
            has_country_id(old(self).countries_seq(), country_id) ==> final(self).countries_seq()
                == old(self).countries_seq().remove(
                country_index(old(self).countries_seq(), country_id),
            ),
            !has_country_id(final(self).countries_seq(), country_id),
    {
        let ghost cs = self.countries@;
        let k = match self.find_country_pos(country_id) {
            Some(k) => k,
            None => {
                return Ok(());
            },
        };
        proof {
            assert(has_country_id(cs, country_id)) by {
                assert((#[trigger] cs[k as int]).id == country_id);
            }
            let ki = country_index(cs, country_id);
            assert((#[trigger] cs[ki]).id == country_id);
            if ki != k as int {
                assert(false);
            }
        }
        self.countries.remove(k);
        proof {
            let rs = self.countries@;
            cs.remove_ensures(k as int);
            assert forall|j: int| 0 <= j < rs.len() implies (#[trigger] rs[j]).id != country_id by {
                if j < k as int {
                    assert(rs[j] == cs[j]);
                } else {
                    assert(rs[j] == cs[j + 1]);
                }
            }
            assert forall|a: int, b: int| 0 <= a < b < rs.len() implies seq_le(
                (#[trigger] rs[a]).name@,
                (#[trigger] rs[b]).name@,
            ) && rs[a].id != rs[b].id && rs[a].name@ != rs[b].name@ by {
                lemma_remove_pairwise(cs, rs, k as int, a, b);
            }
            assert forall|a: int| 0 <= a < rs.len() implies 1 <= (#[trigger] rs[a]).id
                < self.next_country_id by {
                if a < k as int {
                    assert(rs[a] == cs[a]);
                } else {
                    assert(rs[a] == cs[a + 1]);
                }
            }
            assert forall|a: int| 0 <= a < self.states@.len() implies has_country_id(
                rs,
                (#[trigger] self.states@[a]).country_id,
            ) by {
                assert(self.states@[a].country_id != country_id) by {
                    lemma_filter_mem_zero(
                        self.states@,
                        |s: State| s.country_id == country_id,
                        a,
                    );
                }
                lemma_guarded_remove_keeps_referenced_ids(
                    cs,
                    rs,
                    k as int,
                    self.states@[a].country_id,
                    country_id,
                );
            }
            assert forall|a: int|
                0 <= a < self.users@.len() implies ((#[trigger] self.users@[a]).country_id matches
            Some(cid) ==> has_country_id(rs, cid)) by {
                if self.users@[a].country_id is Some {
                    assert(self.users@[a].country_id != Some(country_id)) by {
                        lemma_filter_mem_zero(
                            self.users@,
                            |u: User| u.country_id == Some(country_id),
                            a,
                        );
                    }
                    lemma_guarded_remove_keeps_referenced_ids(
                        cs,
                        rs,
                        k as int,
                        self.users@[a].country_id->0,
                        country_id,
                    );
                }
            }
        }
        Ok(())
    }

    /// How many states reference a country.
    pub fn count_states_by_country_id(&self, country_id: i32) -> (r: usize)
        ensures
            r == states_of_country(self.states_seq(), country_id).len(),
    {
        let n = self.states.len();
        let mut count: usize = 0;
        let mut i: usize = 0;
        let ghost pred = |s: State| s.country_id == country_id;
        while i < n
            invariant
                n == self.states@.len(),
                i <= n,
                pred == (|s: State| s.country_id == country_id),
                count == self.states@.take(i as int).filter(pred).len(),
                count <= i,
            decreases n - i,
        {
            proof {
                lemma_filter_take_step(self.states@, pred, i as int);
            }
            if self.states[i].country_id == country_id {
                count += 1;
            }
            i += 1;
        }
        proof {
            assert(self.states@.take(n as int) =~= self.states@);
        }
        count
    }

    /// How many accounts reference a country.
    pub fn count_users_by_country_id(&self, country_id: i32) -> (r: usize)
        ensures
            r == users_of_country(self.users_seq(), country_id).len(),
    {
        let n = self.users.len();
        let mut count: usize = 0;
        let mut i: usize = 0;
        let ghost pred = |u: User| u.country_id == Some(country_id);
        while i < n
            invariant
                n == self.users@.len(),
                i <= n,
                pred == (|u: User| u.country_id == Some(country_id)),
                count == self.users@.take(i as int).filter(pred).len(),
                count <= i,
            decreases n - i,
        {
            proof {
                lemma_filter_take_step(self.users@, pred, i as int);
            }
            let is_ref = match self.users[i].country_id {
                Some(c) => c == country_id,
                None => false,
            };
            if is_ref {
                count += 1;
            }
            i += 1;
        }
        proof {
            assert(self.users@.take(n as int) =~= self.users@);
        }
        count
    }

    /// How many accounts reference a state.
    pub fn count_users_by_state_id(&self, state_id: i32) -> (r: usize)
        ensures
            r == users_of_state(self.users_seq(), state_id).len(),
    {
        let n = self.users.len();
        let mut count: usize = 0;
        let mut i: usize = 0;
        let ghost pred = |u: User| u.state_id == Some(state_id);
        while i < n
            invariant
                n == self.users@.len(),
                i <= n,
                pred == (|u: User| u.state_id == Some(state_id)),
                count == self.users@.take(i as int).filter(pred).len(),
                count <= i,
            decreases n - i,
        {
            proof {
                lemma_filter_take_step(self.users@, pred, i as int);
            }
            let is_ref = match self.users[i].state_id {
                Some(sid) => sid == state_id,
                None => false,
            };
            if is_ref {
                count += 1;
            }
            i += 1;
        }
        proof {
            assert(self.users@.take(n as int) =~= self.users@);
        }
        count
    }

    /// The states of one country, in stored (name) order.
    pub fn get_states_by_country(&self, country_id: i32) -> (r: Vec<State>)
        ensures
            r@ == states_of_country(self.states_seq(), country_id),
    {
        let n = self.states.len();
        let mut out: Vec<State> = Vec::new();
        let mut i: usize = 0;
        let ghost pred = |s: State| s.country_id == country_id;
        while i < n
            invariant
                n == self.states@.len(),
                i <= n,
                pred == (|s: State| s.country_id == country_id),
                out@ == self.states@.take(i as int).filter(pred),
            decreases n - i,
        {
            proof {
                lemma_filter_take_step(self.states@, pred, i as int);
            }
            if self.states[i].country_id == country_id {
                out.push(self.states[i].clone());
            }
            i += 1;
        }
        proof {
            assert(self.states@.take(n as int) =~= self.states@);
        }
        out
    }

    /// Point lookup of a state by id.
    pub fn get_state_by_id(&self, state_id: i32) -> (r: Option<State>)
        requires
            self.wf(),
        ensures
            r matches Some(st) ==> has_state_id(self.states_seq(), state_id) && st == state_by_id(
                self.states_seq(),
                state_id,
            ) && st.id == state_id,
            r is None ==> !has_state_id(self.states_seq(), state_id),
    {
        let n = self.states.len();
        let mut i: usize = 0;
        while i < n
            invariant
                self.wf(),
                n == self.states@.len(),
                i <= n,
                forall|j: int| 0 <= j < i ==> (#[trigger] self.states@[j]).id != state_id,
            decreases n - i,
        {
            if self.states[i].id == state_id {
                proof {
                    assert(has_state_id(self.states_seq(), state_id));
                    let k = state_index(self.states_seq(), state_id);
                    if k != i as int {
                        assert((#[trigger] self.states@[k]).id == state_id);
                        assert(false);
                    }
                }
                return Some(self.states[i].clone());
            }
            i += 1;
        }
        None
    }

    /// Every state joined with its country's name, grouped by the countries
    /// in their stored (name) order, states in name order within each.
    pub fn get_states_with_countries(&self) -> (r: Vec<StateWithCountry>)
        ensures
            r@ == states_with_countries(self.countries_seq(), self.states_seq()),
    {
        let cn = self.countries.len();
        let sn = self.states.len();
        let mut out: Vec<StateWithCountry> = Vec::new();
        let mut i: usize = 0;
        while i < cn
            invariant
                cn == self.countries@.len(),
                sn == self.states@.len(),
                i <= cn,
                out@ == states_with_countries(self.countries@.take(i as int), self.states@),
            decreases cn - i,
        {
            let c = self.countries[i].clone();
            let ghost pred = |s: State| s.country_id == c.id;
            let ghost rowfn = |s: State|
                StateWithCountry {
                    id: s.id,
                    country_id: s.country_id,
                    name: s.name,
                    country_name: c.name,
                };
            let ghost out_before = out@;
            let mut j: usize = 0;
            while j < sn
                invariant
                    sn == self.states@.len(),
                    j <= sn,
                    pred == (|s: State| s.country_id == c.id),
                    rowfn == (|s: State|
                        StateWithCountry {
                            id: s.id,
                            country_id: s.country_id,
                            name: s.name,
                            country_name: c.name,
                        }),
                    out@ == out_before + self.states@.take(j as int).filter(pred).map_values(
                        rowfn,
                    ),
                decreases sn - j,
            {
                proof {
                    lemma_filter_take_step(self.states@, pred, j as int);
                    assert(self.states@.take(j as int).filter(pred).push(
                        self.states@[j as int],
                    ).map_values(rowfn) =~= self.states@.take(j as int).filter(pred).map_values(
                        rowfn,
                    ).push(rowfn(self.states@[j as int])));
                }
                if self.states[j].country_id == c.id {
                    let row = StateWithCountry {
                        id: self.states[j].id,
                        country_id: self.states[j].country_id,
                        name: self.states[j].name.clone(),
                        country_name: c.name.clone(),
                    };
                    out.push(row);
                    proof {
                        assert(out@ =~= out_before + self.states@.take(j + 1).filter(
                            pred,
                        ).map_values(rowfn));
                    }
                }
                j += 1;
            }
            proof {
                assert(self.states@.take(sn as int) =~= self.states@);
                assert(c == self.countries@[i as int]);
                assert(out@ == out_before + rows_for_country(
                    self.countries@[i as int],
                    self.states@,
                ));
                lemma_swc_push(
                    self.countries@.take(i as int),
                    self.countries@[i as int],
                    self.states@,
                );
                assert(self.countries@.take(i as int).push(self.countries@[i as int])
                    =~= self.countries@.take(i + 1));
            }
            i += 1;
        }
        proof {
            assert(self.countries@.take(cn as int) =~= self.countries@);
        }
        out
    }

    fn state_insert_pos(&self, name: &str) -> (p: usize)
        ensures
            p <= self.states_seq().len(),
            forall|j: int| 0 <= j < p ==> !seq_le(name@, (#[trigger] self.states_seq()[j]).name@),
            p < self.states_seq().len() ==> seq_le(name@, self.states_seq()[p as int].name@),
    {
        let n = self.states.len();
        let mut p: usize = 0;
        while p < n
            invariant
                n == self.states@.len(),
                p <= n,
                forall|j: int| 0 <= j < p ==> !seq_le(name@, (#[trigger] self.states@[j]).name@),
            decreases n - p,
        {
            if str_le(name, self.states[p].name.as_str()) {
                return p;
            }
            p += 1;
        }
        p
    }

    fn find_state_pos(&self, state_id: i32) -> (r: Option<usize>)
        ensures
            r matches Some(i) ==> i < self.states_seq().len() && self.states_seq()[i as int].id
                == state_id,
            r is None ==> !has_state_id(self.states_seq(), state_id),
    {
        let n = self.states.len();
        let mut i: usize = 0;
        while i < n
            invariant
                n == self.states@.len(),
                i <= n,
                forall|j: int| 0 <= j < i ==> (#[trigger] self.states@[j]).id != state_id,
            decreases n - i,
        {
            if self.states[i].id == state_id {
                return Some(i);
            }
            i += 1;
        }
        None
    }

    /// Creates a state under an existing country, with a fresh identity,
    /// keeping the list ordered by name. A missing country refuses with
    /// `NotFound`; an exhausted identity space reports `Unavailable`.
    pub fn create_state(&mut self, country_id: i32, name: &str) -> (r: Result<i32, AppError>)
        requires
            old(self).wf(),
        ensures
            final(self).wf(),
            final(self).countries_seq() == old(self).countries_seq(),
            final(self).users_seq() == old(self).users_seq(),
            final(self).admins_seq() == old(self).admins_seq(),
            final(self).country_next() == old(self).country_next(),
            final(self).user_next() == old(self).user_next(),
            final(self).admin_next() == old(self).admin_next(),
            (r matches Ok(id) && id == old(self).state_next()) <==> (has_country_id(
                old(self).countries_seq(),
                country_id,
            ) && old(self).can_add_state()),
            r == Err::<i32, AppError>(AppError::NotFound) <==> !has_country_id(
                old(self).countries_seq(),
                country_id,
            ),
            r is Err ==> r == Err::<i32, AppError>(AppError::NotFound) || r == Err::<
                i32,
                AppError,
            >(AppError::Unavailable),
            r is Err ==> *final(self) == *old(self),
            r matches Ok(id) ==> final(self).state_next() == old(self).state_next() + 1 && exists|
                p: int,
                st: State,
            |
                0 <= p <= old(self).states_seq().len() && st.id == id && st.country_id == country_id
                    && st.name@ == name@ && final(self).states_seq()
                    == old(self).states_seq().insert(p, st),
    {
        let ghost ss = self.states@;
        if self.find_country_pos(country_id).is_none() {
            return Err(AppError::NotFound);
        }
        assert(has_country_id(self.countries_seq(), country_id));
        if self.next_state_id == i32::MAX {
            return Err(AppError::Unavailable);
        }
        let id = self.next_state_id;
        let p = self.state_insert_pos(name);
        let st = State { id, country_id, name: String::from_str(name) };
        self.states.insert(p, st);
        self.next_state_id = id + 1;
        proof {
            let new_ss = self.states@;
            ss.insert_ensures(p as int, st);
            assert forall|a: int, b: int| 0 <= a < b < new_ss.len() implies seq_le(
                (#[trigger] new_ss[a]).name@,
                (#[trigger] new_ss[b]).name@,
            ) by {
                lemma_state_order_after_insert(ss, new_ss, p as int, st, a, b);
            }
            assert forall|a: int| 0 <= a < new_ss.len() implies 1 <= (#[trigger] new_ss[a]).id
                < self.next_state_id && has_country_id(
                self.countries@,
                new_ss[a].country_id,
            ) by {
                if a < p {
                    assert(new_ss[a] == ss[a]);
                } else if a > p {
                    assert(new_ss[a] == ss[a - 1]);
                }
            }
            assert forall|a: int, b: int| 0 <= a < b < new_ss.len() implies (#[trigger]
            new_ss[a]).id != (#[trigger] new_ss[b]).id by {
                if a < p {
                    assert(new_ss[a] == ss[a]);
                } else if a > p {
                    assert(new_ss[a] == ss[a - 1]);
                }
                if b < p {
                    assert(new_ss[b] == ss[b]);
                } else if b > p {
                    assert(new_ss[b] == ss[b - 1]);
                }
            }
            assert forall|a: int|
                0 <= a < self.users@.len() implies ((#[trigger] self.users@[a]).state_id matches
            Some(sid) ==> has_state_id(new_ss, sid)) by {
                if self.users@[a].state_id is Some {
                    lemma_state_insert_preserves_has_id(
                        ss,
                        new_ss,
                        p as int,
                        st,
                        self.users@[a].state_id->0,
                    );
                }
            }
        }
        Ok(id)
    }

    /// Rewrites a state's country and name, keeping the list ordered. A
    /// missing state id updates no rows; a missing target country refuses
    /// with `NotFound`.
    pub fn update_state(&mut self, state_id: i32, country_id: i32, name: &str) -> (r: Result<
        (),
        AppError,
    >)
        requires
            old(self).wf(),
        ensures
            final(self).wf(),
            final(self).countries_seq() == old(self).countries_seq(),
            final(self).users_seq() == old(self).users_seq(),
            final(self).admins_seq() == old(self).admins_seq(),
            final(self).country_next() == old(self).country_next(),
            final(self).state_next() == old(self).state_next(),
            final(self).user_next() == old(self).user_next(),
            final(self).admin_next() == old(self).admin_next(),
            r is Ok <==> (has_country_id(old(self).countries_seq(), country_id) || !has_state_id(
                old(self).states_seq(),
                state_id,
            )),
            r is Err ==> *final(self) == *old(self) && r == Err::<(), AppError>(
                AppError::NotFound,
            ),
            r is Ok && !has_state_id(old(self).states_seq(), state_id) ==> *final(self) == *old(
                self,
            ),
            r is Ok && has_state_id(old(self).states_seq(), state_id) ==> exists|
                p: int,
                st: State,
            |
                0 <= p <= old(self).states_seq().len() - 1 && st.id == state_id && st.country_id
                    == country_id && st.name@ == name@ && final(self).states_seq()
                    == old(self).states_seq().remove(
                    state_index(old(self).states_seq(), state_id),
                ).insert(p, st),
    {
        let ghost ss = self.states@;
        let k = match self.find_state_pos(state_id) {
            Some(k) => k,
            None => {
                return Ok(());
            },
        };
        proof {
            assert(has_state_id(ss, state_id)) by {
                assert((#[trigger] ss[k as int]).id == state_id);
            }
            let ki = state_index(ss, state_id);
            assert((#[trigger] ss[ki]).id == state_id);
            if ki != k as int {
                assert(false);
            }
        }
        if self.find_country_pos(country_id).is_none() {
            return Err(AppError::NotFound);
        }
        assert(has_country_id(self.countries_seq(), country_id));
        self.states.remove(k);
        let ghost rs = self.states@;
        proof {
            ss.remove_ensures(k as int);
            assert forall|j: int| 0 <= j < rs.len() implies (#[trigger] rs[j]).id != state_id by {
                if j < k as int {
                    assert(rs[j] == ss[j]);
                } else {
                    assert(rs[j] == ss[j + 1]);
                }
            }
            assert forall|a: int, b: int| 0 <= a < b < rs.len() implies seq_le(
                (#[trigger] rs[a]).name@,
                (#[trigger] rs[b]).name@,
            ) && rs[a].id != rs[b].id by {
                ss.remove_ensures(k as int);
                lemma_state_remove_pairwise(ss, rs, k as int, a, b);
            }
            assert forall|a: int| 0 <= a < rs.len() implies 1 <= (#[trigger] rs[a]).id
                < self.next_state_id && has_country_id(self.countries@, rs[a].country_id) by {
                if a < k as int {
                    assert(rs[a] == ss[a]);
                } else {
                    assert(rs[a] == ss[a + 1]);
                }
            }
        }
        let p = self.state_insert_pos(name);
        let st = State { id: state_id, country_id, name: String::from_str(name) };
        self.states.insert(p, st);
        proof {
            let new_ss = self.states@;
            rs.insert_ensures(p as int, st);
            assert forall|a: int, b: int| 0 <= a < b < new_ss.len() implies seq_le(
                (#[trigger] new_ss[a]).name@,
                (#[trigger] new_ss[b]).name@,
            ) by {
                lemma_state_order_after_insert(rs, new_ss, p as int, st, a, b);
            }
            assert forall|a: int| 0 <= a < new_ss.len() implies 1 <= (#[trigger] new_ss[a]).id
                < self.next_state_id && has_country_id(
                self.countries@,
                new_ss[a].country_id,
            ) by {
                if a < p {
                    assert(new_ss[a] == rs[a]);
                } else if a > p {
                    assert(new_ss[a] == rs[a - 1]);
                }
                assert(1 <= ss[k as int].id < self.next_state_id);
            }
            assert forall|a: int, b: int| 0 <= a < b < new_ss.len() implies (#[trigger]
            new_ss[a]).id != (#[trigger] new_ss[b]).id by {
                if a < p {
                    assert(new_ss[a] == rs[a]);
                } else if a > p {
                    assert(new_ss[a] == rs[a - 1]);
                }
                if b < p {
                    assert(new_ss[b] == rs[b]);
                } else if b > p {
                    assert(new_ss[b] == rs[b - 1]);
                }
            }
            assert forall|a: int|
                0 <= a < self.users@.len() implies ((#[trigger] self.users@[a]).state_id matches
            Some(sid) ==> has_state_id(new_ss, sid)) by {
                if self.users@[a].state_id is Some {
                    lemma_state_remove_insert_same_id_keeps_ids(
                        ss,
                        rs,
                        new_ss,
                        k as int,
                        p as int,
                        st,
                        self.users@[a].state_id->0,
                    );
                }
            }
        }
        Ok(())
    }

    /// Deletes a state row. The caller is responsible for the referential
    /// guard: no account may still reference the id. A missing id deletes
    /// no rows and is not an error.
    pub fn delete_state(&mut self, state_id: i32) -> (r: Result<(), AppError>)
        requires
            old(self).wf(),
            users_of_state(old(self).users_seq(), state_id).len() == 0,
        ensures
            final(self).wf(),
            final(self).countries_seq() == old(self).countries_seq(),
            final(self).users_seq() == old(self).users_seq(),
            final(self).admins_seq() == old(self).admins_seq(),
            final(self).country_next() == old(self).country_next(),
            final(self).state_next() == old(self).state_next(),
            final(self).user_next() == old(self).user_next(),
            final(self).admin_next() == old(self).admin_next(),
            r is Ok,
            !has_state_id(old(self).states_seq(), state_id) ==> *final(self) == *old(self),
            has_state_id(old(self).states_seq(), state_id) ==> final(self).states_seq()
                == old(self).states_seq().remove(
                state_index(old(self).states_seq(), state_id),
            ),
            !has_state_id(final(self).states_seq(), state_id),
    {
        let ghost ss = self.states@;
        let k = match self.find_state_pos(state_id) {
            Some(k) => k,
            None => {
                return Ok(());
            },
        };
        proof {
            assert(has_state_id(ss, state_id)) by {
                assert((#[trigger] ss[k as int]).id == state_id);
            }
            let ki = state_index(ss, state_id);
            assert((#[trigger] ss[ki]).id == state_id);
            if ki != k as int {
                assert(false);
            }
        }
        self.states.remove(k);
        proof {
            let rs = self.states@;
            ss.remove_ensures(k as int);
            assert forall|j: int| 0 <= j < rs.len() implies (#[trigger] rs[j]).id != state_id by {
                if j < k as int {
                    assert(rs[j] == ss[j]);
                } else {
                    assert(rs[j] == ss[j + 1]);
                }
            }
            assert forall|a: int, b: int| 0 <= a < b < rs.len() implies seq_le(
                (#[trigger] rs[a]).name@,
                (#[trigger] rs[b]).name@,
            ) && rs[a].id != rs[b].id by {
                lemma_state_remove_pairwise(ss, rs, k as int, a, b);
            }
            assert forall|a: int| 0 <= a < rs.len() implies 1 <= (#[trigger] rs[a]).id
                < self.next_state_id && has_country_id(self.countries@, rs[a].country_id) by {
                if a < k as int {
                    assert(rs[a] == ss[a]);
                } else {
                    assert(rs[a] == ss[a + 1]);
                }
            }
            assert forall|a: int|
                0 <= a < self.users@.len() implies ((#[trigger] self.users@[a]).state_id matches
            Some(sid) ==> has_state_id(rs, sid)) by {
                if self.users@[a].state_id is Some {
                    assert(self.users@[a].state_id != Some(state_id)) by {
                        lemma_filter_mem_zero(
                            self.users@,
                            |u: User| u.state_id == Some(state_id),
                            a,
                        );
                    }
                    lemma_state_guarded_remove_keeps_ids(
                        ss,
                        rs,
                        k as int,
                        self.users@[a].state_id->0,
                        state_id,
                    );
                }
            }
        }
        Ok(())
    }

    fn find_user_pos(&self, user_id: i32) -> (r: Option<usize>)
        ensures
            r matches Some(i) ==> i < self.users_seq().len() && self.users_seq()[i as int].id
                == user_id,
            r is None ==> !has_user_id(self.users_seq(), user_id),
    {
        let n = self.users.len();
        let mut i: usize = 0;
        while i < n
            invariant
                n == self.users@.len(),
                i <= n,
                forall|j: int| 0 <= j < i ==> (#[trigger] self.users@[j]).id != user_id,
            decreases n - i,
        {
            if self.users[i].id == user_id {
                return Some(i);
            }
            i += 1;
        }
        None
    }

    /// Point lookup of an account by username.
    pub fn find_user_by_username(&self, username: &str) -> (r: Option<User>)
        requires
            self.wf(),
        ensures
            r matches Some(u) ==> has_username(self.users_seq(), username@) && u
                == user_by_username(self.users_seq(), username@) && u.username@ == username@,
            r is None ==> !has_username(self.users_seq(), username@),
    {
        let n = self.users.len();
        let mut i: usize = 0;
        while i < n
            invariant
                self.wf(),
                n == self.users@.len(),
                i <= n,
                forall|j: int| 0 <= j < i ==> (#[trigger] self.users@[j]).username@ != username@,
            decreases n - i,
        {
            if str_eq(self.users[i].username.as_str(), username) {
                proof {
                    assert(has_username(self.users_seq(), username@));
                    let k = username_index(self.users_seq(), username@);
                    if k != i as int {
                        assert((#[trigger] self.users@[k]).username@ == username@);
                        assert(false);
                    }
                }
                return Some(self.users[i].clone());
            }
            i += 1;
        }
        None
    }

    /// Point lookup of an account by id.
    pub fn find_user_by_id(&self, user_id: i32) -> (r: Option<User>)
        requires
            self.wf(),
        ensures
            r matches Some(u) ==> has_user_id(self.users_seq(), user_id) && u == user_by_id(
                self.users_seq(),
                user_id,
            ) && u.id == user_id,
            r is None ==> !has_user_id(self.users_seq(), user_id),
    {
        let n = self.users.len();
        let mut i: usize = 0;
        while i < n
            invariant
                self.wf(),
                n == self.users@.len(),
                i <= n,
                forall|j: int| 0 <= j < i ==> (#[trigger] self.users@[j]).id != user_id,
            decreases n - i,
        {
            if self.users[i].id == user_id {
                proof {
                    assert(has_user_id(self.users_seq(), user_id));
                    let k = user_index(self.users_seq(), user_id);
                    if k != i as int {
                        assert((#[trigger] self.users@[k]).id == user_id);
                        assert(false);
                    }
                }
                return Some(self.users[i].clone());
            }
            i += 1;
        }
        None
    }

    /// The number of accounts.
    pub fn get_users_count(&self) -> (r: usize)
        ensures
            r == self.users_seq().len(),
    {
        self.users.len()
    }

    /// A borrowed snapshot of the account table, for the listing component.
    pub fn users_snapshot(&self) -> (r: &Vec<User>)
        ensures
            r@ == self.users_seq(),
    {
        &self.users
    }

    /// Inserts an account row whose password hash was already computed.
    /// A taken username or email refuses with `Conflict`; a dangling
    /// country or state reference refuses with `NotFound`.
    pub fn create_user_with_hash(
        &mut self,
        username: &str,
        email: &str,
        password_hash: String,
        address: Option<String>,
        country_id: Option<i32>,
        state_id: Option<i32>,
        now: u64,
    ) -> (r: Result<i32, AppError>)
        requires
            old(self).wf(),
        ensures
            final(self).wf(),
            final(self).countries_seq() == old(self).countries_seq(),
            final(self).states_seq() == old(self).states_seq(),
            final(self).admins_seq() == old(self).admins_seq(),
            final(self).country_next() == old(self).country_next(),
            final(self).state_next() == old(self).state_next(),
            final(self).admin_next() == old(self).admin_next(),
            r == Err::<i32, AppError>(AppError::Conflict) <==> (has_username(
                old(self).users_seq(),
                username@,
            ) || has_user_email(old(self).users_seq(), email@)),
            r == Err::<i32, AppError>(AppError::NotFound) <==> (!(has_username(
                old(self).users_seq(),
                username@,
            ) || has_user_email(old(self).users_seq(), email@)) && ((country_id matches Some(c)
                && !has_country_id(old(self).countries_seq(), c)) || (state_id matches Some(sid)
                && !has_state_id(old(self).states_seq(), sid)))),
            r is Err ==> r == Err::<i32, AppError>(AppError::Conflict) || r == Err::<
                i32,
                AppError,
            >(AppError::NotFound) || r == Err::<i32, AppError>(AppError::Unavailable),
            r is Err ==> *final(self) == *old(self),
            (r matches Ok(id) && id == old(self).user_next()) <==> (!has_username(
                old(self).users_seq(),
                username@,
            ) && !has_user_email(old(self).users_seq(), email@) && (country_id matches Some(c)
                ==> has_country_id(old(self).countries_seq(), c)) && (state_id matches Some(sid)
                ==> has_state_id(old(self).states_seq(), sid)) && old(self).can_add_user()),
            r matches Ok(id) ==> final(self).user_next() == old(self).user_next() + 1 && exists|
                u: User,
            |
                u.id == id && u.username@ == username@ && u.email@ == email@ && u.password_hash
                    == password_hash && u.created_at == now && u.address == address && u.country_id
                    == country_id && u.state_id == state_id && final(self).users_seq()
                    == old(self).users_seq().push(u),
    {
        let ghost us = self.users@;
        let n = self.users.len();
        let mut i: usize = 0;
        while i < n
            invariant
                *self == *old(self),
                old(self).wf(),
                n == self.users@.len(),
                i <= n,
                us == self.users@,
                forall|j: int|
                    0 <= j < i ==> (#[trigger] self.users@[j]).username@ != username@
                        && self.users@[j].email@ != email@,
            decreases n - i,
        {
            if str_eq(self.users[i].username.as_str(), username) {
                proof {
                    assert(has_username(us, username@));
                }
                return Err(AppError::Conflict);
            }
            if str_eq(self.users[i].email.as_str(), email) {
                proof {
                    assert(has_user_email(us, email@));
                }
                return Err(AppError::Conflict);
            }
            i += 1;
        }
        assert(!has_username(us, username@) && !has_user_email(us, email@));
        let country_ok = match country_id {
            Some(c) => self.find_country_pos(c).is_some(),
            None => true,
        };
        if !country_ok {
            return Err(AppError::NotFound);
        }
        let state_ok = match state_id {
            Some(sid) => self.find_state_pos(sid).is_some(),
            None => true,
        };
        if !state_ok {
            return Err(AppError::NotFound);
        }
        if self.next_user_id == i32::MAX {
            return Err(AppError::Unavailable);
        }
        let id = self.next_user_id;
        let u = User {
            id,
            username: String::from_str(username),
            email: String::from_str(email),
            password_hash,
            created_at: now,
            address,
            country_id,
            state_id,
        };
        self.users.push(u);
        self.next_user_id = id + 1;
        proof {
            let new_us = self.users@;
            assert forall|a: int, b: int| 0 <= a < b < new_us.len() implies (#[trigger]
            new_us[a]).id != (#[trigger] new_us[b]).id && new_us[a].username@
                != new_us[b].username@ && new_us[a].email@ != new_us[b].email@ by {
                if b < us.len() {
                    assert(new_us[a] == us[a] && new_us[b] == us[b]);
                } else {
                    assert(new_us[b] == u);
                    assert(new_us[a] == us[a]);
                }
            }
        }
        Ok(id)
    }

    /// Creates an account, hashing the password with the trusted gateway.
    /// The referential and uniqueness outcomes are those of
    /// `create_user_with_hash`; a hashing failure reports `Unavailable`.
    pub fn create_user(
        &mut self,
        username: &str,
        email: &str,
        password: &str,
        address: Option<String>,
        country_id: Option<i32>,
        state_id: Option<i32>,
        now: u64,
    ) -> (r: Result<i32, AppError>)
        requires
            old(self).wf(),
        ensures
            final(self).wf(),
            final(self).countries_seq() == old(self).countries_seq(),
            final(self).states_seq() == old(self).states_seq(),
            final(self).admins_seq() == old(self).admins_seq(),
            r == Err::<i32, AppError>(AppError::Conflict) <==> (has_username(
                old(self).users_seq(),
                username@,
            ) || has_user_email(old(self).users_seq(), email@)),
            r == Err::<i32, AppError>(AppError::NotFound) <==> (!(has_username(
                old(self).users_seq(),
                username@,
            ) || has_user_email(old(self).users_seq(), email@)) && ((country_id matches Some(c)
                && !has_country_id(old(self).countries_seq(), c)) || (state_id matches Some(sid)
                && !has_state_id(old(self).states_seq(), sid)))),
            r is Err ==> r == Err::<i32, AppError>(AppError::Conflict) || r == Err::<
                i32,
                AppError,
            >(AppError::NotFound) || r == Err::<i32, AppError>(AppError::Unavailable),
            r is Err ==> *final(self) == *old(self),
            r matches Ok(id) ==> id == old(self).user_next() && final(self).user_next() == old(
                self,
            ).user_next() + 1 && exists|u: User|
                u.id == id && u.username@ == username@ && u.email@ == email@ && u.created_at == now
                    && u.address == address && u.country_id == country_id && u.state_id == state_id
                    && crate::outside::bcrypt_verifies(password@, u.password_hash@)
                    && final(self).users_seq() == old(self).users_seq().push(u),
    {
        let ghost us = self.users@;
        let n = self.users.len();
        let mut i: usize = 0;
        while i < n
            invariant
                *self == *old(self),
                old(self).wf(),
                n == self.users@.len(),
                i <= n,
                us == self.users@,
                forall|j: int|
                    0 <= j < i ==> (#[trigger] self.users@[j]).username@ != username@
                        && self.users@[j].email@ != email@,
            decreases n - i,
        {
            if str_eq(self.users[i].username.as_str(), username) {
                proof {
                    assert(has_username(us, username@));
                }
                return Err(AppError::Conflict);
            }
            if str_eq(self.users[i].email.as_str(), email) {
                proof {
                    assert(has_user_email(us, email@));
                }
                return Err(AppError::Conflict);
            }
            i += 1;
        }
        assert(!has_username(us, username@) && !has_user_email(us, email@));
        let country_ok = match country_id {
            Some(c) => self.find_country_pos(c).is_some(),
            None => true,
        };
        if !country_ok {
            return Err(AppError::NotFound);
        }
        let state_ok = match state_id {
            Some(sid) => self.find_state_pos(sid).is_some(),
            None => true,
        };
        if !state_ok {
            return Err(AppError::NotFound);
        }
        let password_hash = match crate::outside::hash_password(password) {
            Some(h) => h,
            None => {
                return Err(AppError::Unavailable);
            },
        };
        self.create_user_with_hash(username, email, password_hash, address, country_id, state_id, now)
    }

    /// Rewrites an account's profile fields in place, leaving its password
    /// hash and creation time. A username or email some other account holds
    /// refuses with `Conflict`; a dangling reference refuses with
    /// `NotFound`; a missing id updates no rows.
    pub fn update_user(
        &mut self,
        user_id: i32,
        username: &str,
        email: &str,
        address: Option<String>,
        country_id: Option<i32>,
        state_id: Option<i32>,
    ) -> (r: Result<(), AppError>)
        requires
            old(self).wf(),
        ensures
            final(self).wf(),
            final(self).countries_seq() == old(self).countries_seq(),
            final(self).states_seq() == old(self).states_seq(),
            final(self).admins_seq() == old(self).admins_seq(),
            final(self).country_next() == old(self).country_next(),
            final(self).state_next() == old(self).state_next(),
            final(self).user_next() == old(self).user_next(),
            final(self).admin_next() == old(self).admin_next(),
            r is Err ==> *final(self) == *old(self),
            !has_user_id(old(self).users_seq(), user_id) ==> r is Ok && *final(self) == *old(
                self,
            ),
            has_user_id(old(self).users_seq(), user_id) ==> {
                let conflict = other_user_has_name_or_email(
                    old(self).users_seq(),
                    user_id,
                    username@,
                    email@,
                );
                let dangling = (country_id matches Some(c) && !has_country_id(
                    old(self).countries_seq(),
                    c,
                )) || (state_id matches Some(sid) && !has_state_id(old(self).states_seq(), sid));
                &&& (r == Err::<(), AppError>(AppError::Conflict) <==> conflict)
                &&& (r == Err::<(), AppError>(AppError::NotFound) <==> (!conflict && dangling))
                &&& (r is Ok <==> (!conflict && !dangling))
            },
            r is Ok && has_user_id(old(self).users_seq(), user_id) ==> exists|u: User|
                u.id == user_id && u.username@ == username@ && u.email@ == email@ && u.address
                    == address && u.country_id == country_id && u.state_id == state_id
                    && u.password_hash == user_by_id(
                    old(self).users_seq(),
                    user_id,
                ).password_hash && u.created_at == user_by_id(
                    old(self).users_seq(),
                    user_id,
                ).created_at && final(self).users_seq() == old(self).users_seq().update(
                    user_index(old(self).users_seq(), user_id),
                    u,
                ),
    {
        let ghost us = self.users@;
        let k = match self.find_user_pos(user_id) {
            Some(k) => k,
            None => {
                return Ok(());
            },
        };
        proof {
            assert(has_user_id(us, user_id)) by {
                assert((#[trigger] us[k as int]).id == user_id);
            }
            let ki = user_index(us, user_id);
            assert((#[trigger] us[ki]).id == user_id);
            if ki != k as int {
                assert(false);
            }
        }
        let n = self.users.len();
        let mut i: usize = 0;
        while i < n
            invariant
                *self == *old(self),
                old(self).wf(),
                has_user_id(old(self).users_seq(), user_id),
                n == self.users@.len(),
                i <= n,
                us == self.users@,
                forall|j: int|
                    0 <= j < i ==> !((#[trigger] self.users@[j]).id != user_id && (
                    self.users@[j].username@ == username@ || self.users@[j].email@ == email@)),
            decreases n - i,
        {
            if self.users[i].id != user_id && (str_eq(self.users[i].username.as_str(), username)
                || str_eq(self.users[i].email.as_str(), email)) {
                proof {
                    assert(other_user_has_name_or_email(us, user_id, username@, email@));
                }
                return Err(AppError::Conflict);
            }
            i += 1;
        }
        assert(!other_user_has_name_or_email(us, user_id, username@, email@));
        let country_ok = match country_id {
            Some(c) => self.find_country_pos(c).is_some(),
            None => true,
        };
        if !country_ok {
            return Err(AppError::NotFound);
        }
        let state_ok = match state_id {
            Some(sid) => self.find_state_pos(sid).is_some(),
            None => true,
        };
        if !state_ok {
            return Err(AppError::NotFound);
        }
        let old_row = self.users.remove(k);
        let u = User {
            id: user_id,
            username: String::from_str(username),
            email: String::from_str(email),
            password_hash: old_row.password_hash,
            created_at: old_row.created_at,
            address,
            country_id,
            state_id,
        };
        self.users.insert(k, u);
        proof {
            let new_us = self.users@;
            us.remove_ensures(k as int);
            us.remove(k as int).insert_ensures(k as int, u);
            assert(new_us =~= us.update(k as int, u));
            assert forall|a: int, b: int| 0 <= a < b < new_us.len() implies (#[trigger]
            new_us[a]).id != (#[trigger] new_us[b]).id && new_us[a].username@
                != new_us[b].username@ && new_us[a].email@ != new_us[b].email@ by {
                if a != k as int && b != k as int {
                    assert(new_us[a] == us[a] && new_us[b] == us[b]);
                } else if a == k as int {
                    assert(new_us[b] == us[b]);
                } else {
                    assert(new_us[a] == us[a]);
                }
            }
        }
        Ok(())
    }

    /// Replaces an account's password hash with one already computed; a
    /// missing id updates no rows.
    pub fn update_password_with_hash(&mut self, user_id: i32, password_hash: String) -> (r:
        Result<(), AppError>)
        requires
            old(self).wf(),
        ensures
            final(self).wf(),
            final(self).countries_seq() == old(self).countries_seq(),
            final(self).states_seq() == old(self).states_seq(),
            final(self).admins_seq() == old(self).admins_seq(),
            final(self).country_next() == old(self).country_next(),
            final(self).state_next() == old(self).state_next(),
            final(self).user_next() == old(self).user_next(),
            final(self).admin_next() == old(self).admin_next(),
            r is Ok,
            !has_user_id(old(self).users_seq(), user_id) ==> *final(self) == *old(self),
            has_user_id(old(self).users_seq(), user_id) ==> exists|u: User|
                u.id == user_id && u.password_hash == password_hash && u.username == user_by_id(
                    old(self).users_seq(),
                    user_id,
                ).username && u.email == user_by_id(old(self).users_seq(), user_id).email
                    && u.created_at == user_by_id(old(self).users_seq(), user_id).created_at
                    && u.address == user_by_id(old(self).users_seq(), user_id).address
                    && u.country_id == user_by_id(old(self).users_seq(), user_id).country_id
                    && u.state_id == user_by_id(old(self).users_seq(), user_id).state_id
                    && final(self).users_seq() == old(self).users_seq().update(
                    user_index(old(self).users_seq(), user_id),
                    u,
                ),
    {
        let ghost us = self.users@;
        let k = match self.find_user_pos(user_id) {
            Some(k) => k,
            None => {
                return Ok(());
            },
        };
        proof {
            assert(has_user_id(us, user_id)) by {
                assert((#[trigger] us[k as int]).id == user_id);
            }
            let ki = user_index(us, user_id);
            assert((#[trigger] us[ki]).id == user_id);
            if ki != k as int {
                assert(false);
            }
        }
        let old_row = self.users.remove(k);
        let u = User {
            id: old_row.id,
            username: old_row.username,
            email: old_row.email,
            password_hash,
            created_at: old_row.created_at,
            address: old_row.address,
            country_id: old_row.country_id,
            state_id: old_row.state_id,
        };
        self.users.insert(k, u);
        proof {
            let new_us = self.users@;
            us.remove_ensures(k as int);
            us.remove(k as int).insert_ensures(k as int, u);
            assert(new_us =~= us.update(k as int, u));
            assert forall|a: int, b: int| 0 <= a < b < new_us.len() implies (#[trigger]
            new_us[a]).id != (#[trigger] new_us[b]).id && new_us[a].username@
                != new_us[b].username@ && new_us[a].email@ != new_us[b].email@ by {
                if a != k as int && b != k as int {
                    assert(new_us[a] == us[a] && new_us[b] == us[b]);
                } else if a == k as int {
                    assert(new_us[b] == us[b]);
                } else {
                    assert(new_us[a] == us[a]);
                }
            }
        }
        Ok(())
    }

    /// Replaces an account's password, hashing it with the trusted gateway;
    /// a hashing failure reports `Unavailable`.
    pub fn update_password(&mut self, user_id: i32, new_password: &str) -> (r: Result<
        (),
        AppError,
    >)
        requires
            old(self).wf(),
        ensures
            final(self).wf(),
            final(self).countries_seq() == old(self).countries_seq(),
            final(self).states_seq() == old(self).states_seq(),
            final(self).admins_seq() == old(self).admins_seq(),
            r is Err ==> *final(self) == *old(self) && r == Err::<(), AppError>(
                AppError::Unavailable,
            ),
            r is Ok && !has_user_id(old(self).users_seq(), user_id) ==> *final(self) == *old(
                self,
            ),
            r is Ok && has_user_id(old(self).users_seq(), user_id) ==> exists|u: User|
                u.id == user_id && u.username == user_by_id(old(self).users_seq(), user_id).username
                    && u.email == user_by_id(old(self).users_seq(), user_id).email
                    && u.created_at == user_by_id(old(self).users_seq(), user_id).created_at
                    && u.address == user_by_id(old(self).users_seq(), user_id).address
                    && u.country_id == user_by_id(old(self).users_seq(), user_id).country_id
                    && u.state_id == user_by_id(old(self).users_seq(), user_id).state_id
                    && crate::outside::bcrypt_verifies(new_password@, u.password_hash@)
                    && final(self).users_seq() == old(self).users_seq().update(
                    user_index(old(self).users_seq(), user_id),
                    u,
                ),
    {
        let password_hash = match crate::outside::hash_password(new_password) {
            Some(h) => h,
            None => {
                return Err(AppError::Unavailable);
            },
        };
        self.update_password_with_hash(user_id, password_hash)
    }

    /// Deletes an account row; a missing id deletes no rows.
    pub fn delete_user(&mut self, user_id: i32) -> (r: Result<(), AppError>)
        requires
            old(self).wf(),
        ensures
            final(self).wf(),
            final(self).countries_seq() == old(self).countries_seq(),
            final(self).states_seq() == old(self).states_seq(),
            final(self).admins_seq() == old(self).admins_seq(),
            final(self).country_next() == old(self).country_next(),
            final(self).state_next() == old(self).state_next(),
            final(self).user_next() == old(self).user_next(),
            final(self).admin_next() == old(self).admin_next(),
            r is Ok,
            !has_user_id(old(self).users_seq(), user_id) ==> *final(self) == *old(self),
            has_user_id(old(self).users_seq(), user_id) ==> final(self).users_seq() == old(
                self,
            ).users_seq().remove(user_index(old(self).users_seq(), user_id)),
            !has_user_id(final(self).users_seq(), user_id),
    {
        let ghost us = self.users@;
        let k = match self.find_user_pos(user_id) {
            Some(k) => k,
            None => {
                return Ok(());
            },
        };
        proof {
            assert(has_user_id(us, user_id)) by {
                assert((#[trigger] us[k as int]).id == user_id);
            }
            let ki = user_index(us, user_id);
            assert((#[trigger] us[ki]).id == user_id);
            if ki != k as int {
                assert(false);
            }
        }
        self.users.remove(k);
        proof {
            let rs = self.users@;
            us.remove_ensures(k as int);
            assert forall|j: int| 0 <= j < rs.len() implies (#[trigger] rs[j]).id != user_id by {
                if j < k as int {
                    assert(rs[j] == us[j]);
                } else {
                    assert(rs[j] == us[j + 1]);
                }
            }
            assert forall|a: int, b: int| 0 <= a < b < rs.len() implies (#[trigger] rs[a]).id != (
            #[trigger] rs[b]).id && rs[a].username@ != rs[b].username@ && rs[a].email@
                != rs[b].email@ by {
                us.remove_ensures(k as int);
            }
            assert forall|a: int| 0 <= a < rs.len() implies 1 <= (#[trigger] rs[a]).id
                < self.next_user_id && (rs[a].country_id matches Some(c) ==> has_country_id(
                self.countries@,
                c,
            )) && (rs[a].state_id matches Some(sid) ==> has_state_id(self.states@, sid)) by {
                if a < k as int {
                    assert(rs[a] == us[a]);
                } else {
                    assert(rs[a] == us[a + 1]);
                }
            }
        }
        Ok(())
    }

    /// Point lookup of an administrator by username.
    pub fn find_admin_by_username(&self, username: &str) -> (r: Option<Admin>)
        requires
            self.wf(),
        ensures
            r matches Some(a) ==> has_admin_username(self.admins_seq(), username@) && a
                == admin_by_username(self.admins_seq(), username@) && a.username@ == username@,
            r is None ==> !has_admin_username(self.admins_seq(), username@),
    {
        let n = self.admins.len();
        let mut i: usize = 0;
        while i < n
            invariant
                self.wf(),
                n == self.admins@.len(),
                i <= n,
                forall|j: int| 0 <= j < i ==> (#[trigger] self.admins@[j]).username@ != username@,
            decreases n - i,
        {
            if str_eq(self.admins[i].username.as_str(), username) {
                proof {
                    assert(has_admin_username(self.admins_seq(), username@));
                    let k = admin_index(self.admins_seq(), username@);
                    if k != i as int {
                        assert((#[trigger] self.admins@[k]).username@ == username@);
                        assert(false);
                    }
                }
                return Some(self.admins[i].clone());
            }
            i += 1;
        }
        None
    }

    /// Point lookup of an administrator by id.
    pub fn find_admin_by_id(&self, admin_id: i32) -> (r: Option<Admin>)
        requires
            self.wf(),
        ensures
            r matches Some(a) ==> has_admin_id(self.admins_seq(), admin_id) && a == admin_by_id(
                self.admins_seq(),
                admin_id,
            ) && a.id == admin_id,
            r is None ==> !has_admin_id(self.admins_seq(), admin_id),
    {
        let n = self.admins.len();
        let mut i: usize = 0;
        while i < n
            invariant
                self.wf(),
                n == self.admins@.len(),
                i <= n,
                forall|j: int| 0 <= j < i ==> (#[trigger] self.admins@[j]).id != admin_id,
            decreases n - i,
        {
            if self.admins[i].id == admin_id {
                proof {
                    assert(has_admin_id(self.admins_seq(), admin_id));
                    let k = admin_id_index(self.admins_seq(), admin_id);
                    if k != i as int {
                        assert((#[trigger] self.admins@[k]).id == admin_id);
                        assert(false);
                    }
                }
                return Some(self.admins[i].clone());
            }
            i += 1;
        }
        None
    }

    /// Inserts an administrator whose password hash was already computed.
    /// A taken username or email refuses with `Conflict`.
    pub fn create_admin_with_hash(
        &mut self,
        username: &str,
        email: &str,
        password_hash: String,
        now: u64,
    ) -> (r: Result<i32, AppError>)
        requires
            old(self).wf(),
        ensures
            final(self).wf(),
            final(self).countries_seq() == old(self).countries_seq(),
            final(self).states_seq() == old(self).states_seq(),
            final(self).users_seq() == old(self).users_seq(),
            final(self).country_next() == old(self).country_next(),
            final(self).state_next() == old(self).state_next(),
            final(self).user_next() == old(self).user_next(),
            r == Err::<i32, AppError>(AppError::Conflict) <==> (has_admin_username(
                old(self).admins_seq(),
                username@,
            ) || has_admin_email(old(self).admins_seq(), email@)),
            r is Err ==> *final(self) == *old(self),
            (r matches Ok(id) && id == old(self).admin_next()) <==> (!has_admin_username(
                old(self).admins_seq(),
                username@,
            ) && !has_admin_email(old(self).admins_seq(), email@) && old(self).can_add_admin()),
            r matches Ok(id) ==> final(self).admin_next() == old(self).admin_next() + 1 && exists|
                a: Admin,
            |
                a.id == id && a.username@ == username@ && a.email@ == email@ && a.password_hash
                    == password_hash && a.created_at == Some(now) && final(self).admins_seq()
                    == old(self).admins_seq().push(a),
    {
        let ghost ads = self.admins@;
        let n = self.admins.len();
        let mut i: usize = 0;
        while i < n
            invariant
                *self == *old(self),
                old(self).wf(),
                n == self.admins@.len(),
                i <= n,
                ads == self.admins@,
                forall|j: int|
                    0 <= j < i ==> (#[trigger] self.admins@[j]).username@ != username@
                        && self.admins@[j].email@ != email@,
            decreases n - i,
        {
            if str_eq(self.admins[i].username.as_str(), username) {
                proof {
                    assert(has_admin_username(ads, username@));
                }
                return Err(AppError::Conflict);
            }
            if str_eq(self.admins[i].email.as_str(), email) {
                proof {
                    assert(has_admin_email(ads, email@));
                }
                return Err(AppError::Conflict);
            }
            i += 1;
        }
        assert(!has_admin_username(ads, username@) && !has_admin_email(ads, email@));
        if self.next_admin_id == i32::MAX {
            return Err(AppError::Unavailable);
        }
        let id = self.next_admin_id;
        let a = Admin {
            id,
            username: String::from_str(username),
            email: String::from_str(email),
            password_hash,
            created_at: Some(now),
        };
        self.admins.push(a);
        self.next_admin_id = id + 1;
        proof {
            let new_ads = self.admins@;
            assert forall|x: int, y: int| 0 <= x < y < new_ads.len() implies (#[trigger]
            new_ads[x]).id != (#[trigger] new_ads[y]).id && new_ads[x].username@
                != new_ads[y].username@ && new_ads[x].email@ != new_ads[y].email@ by {
                if y < ads.len() {
                    assert(new_ads[x] == ads[x] && new_ads[y] == ads[y]);
                } else {
                    assert(new_ads[y] == a);
                    assert(new_ads[x] == ads[x]);
                }
            }
        }
        Ok(id)
    }

    /// Creates an administrator, hashing the password with the trusted
    /// gateway; a hashing failure reports `Unavailable`.
    pub fn create_admin(&mut self, username: &str, email: &str, password: &str, now: u64) -> (r:
        Result<i32, AppError>)
        requires
            old(self).wf(),
        ensures
            final(self).wf(),
            final(self).countries_seq() == old(self).countries_seq(),
            final(self).states_seq() == old(self).states_seq(),
            final(self).users_seq() == old(self).users_seq(),
            r == Err::<i32, AppError>(AppError::Conflict) <==> (has_admin_username(
                old(self).admins_seq(),
                username@,
            ) || has_admin_email(old(self).admins_seq(), email@)),
            r is Err ==> *final(self) == *old(self),
            r matches Ok(id) ==> id == old(self).admin_next() && final(self).admin_next() == old(
                self,
            ).admin_next() + 1 && exists|a: Admin|
                a.id == id && a.username@ == username@ && a.email@ == email@ && a.created_at
                    == Some(now) && crate::outside::bcrypt_verifies(password@, a.password_hash@)
                    && final(self).admins_seq() == old(self).admins_seq().push(a),
    {
        let ghost ads = self.admins@;
        let n = self.admins.len();
        let mut i: usize = 0;
        while i < n
            invariant
                *self == *old(self),
                old(self).wf(),
                n == self.admins@.len(),
                i <= n,
                ads == self.admins@,
                forall|j: int|
                    0 <= j < i ==> (#[trigger] self.admins@[j]).username@ != username@
                        && self.admins@[j].email@ != email@,
            decreases n - i,
        {
            if str_eq(self.admins[i].username.as_str(), username) {
                proof {
                    assert(has_admin_username(ads, username@));
                }
                return Err(AppError::Conflict);
            }
            if str_eq(self.admins[i].email.as_str(), email) {
                proof {
                    assert(has_admin_email(ads, email@));
                }
                return Err(AppError::Conflict);
            }
            i += 1;
        }
        assert(!has_admin_username(ads, username@) && !has_admin_email(ads, email@));
        let password_hash = match crate::outside::hash_password(password) {
            Some(h) => h,
            None => {
                return Err(AppError::Unavailable);
            },
        };
        self.create_admin_with_hash(username, email, password_hash, now)
    }

    /// Whether a country with this id exists.
    pub fn has_country(&self, country_id: i32) -> (r: bool)
        ensures
            r == has_country_id(self.countries_seq(), country_id),
    {
        let n = self.countries.len();
        let mut i: usize = 0;
        while i < n
            invariant
                n == self.countries@.len(),
                i <= n,
                forall|j: int| 0 <= j < i ==> (#[trigger] self.countries@[j]).id != country_id,
            decreases n - i,
        {
            if self.countries[i].id == country_id {
                proof {
                    assert(has_country_id(self.countries_seq(), country_id));
                }
                return true;
            }
            i += 1;
        }
        false
    }
}

/// After a sorted insertion the list stays sorted: positions below the
/// insertion point were strictly above the new name's order, positions at or
/// beyond it were at or above it.
proof fn lemma_country_order_after_insert(
    cs: Seq<Country>,
    new_cs: Seq<Country>,
    p: int,
    c: Country,
    a: int,
    b: int,
)
    requires
        sorted_country_names(cs),
        0 <= p <= cs.len(),
        new_cs == cs.insert(p, c),
        forall|j: int| 0 <= j < p ==> !seq_le(c.name@, (#[trigger] cs[j]).name@),
        p < cs.len() ==> seq_le(c.name@, cs[p].name@),
        0 <= a < b < new_cs.len(),
    ensures
        seq_le(new_cs[a].name@, new_cs[b].name@),
{
    cs.insert_ensures(p, c);
    if a == p {
        if b > p && b - 1 > p {
            lemma_seq_le_trans(c.name@, cs[p].name@, cs[b - 1].name@);
        }
    } else if b == p {
        lemma_seq_le_total(c.name@, cs[a].name@);
    } else if a < p && b > p {
    } else if a > p && b > p {
    }
}

/// After inserting a country with a fresh id and a name nobody holds, ids
/// and names stay pairwise distinct.
proof fn lemma_country_distinct_after_insert(
    cs: Seq<Country>,
    new_cs: Seq<Country>,
    p: int,
    c: Country,
    a: int,
    b: int,
)
    requires
        unique_country_ids(cs),
        unique_country_names(cs),
        forall|i: int| 0 <= i < cs.len() ==> (#[trigger] cs[i]).id != c.id,
        !has_country_name(cs, c.name@),
        0 <= p <= cs.len(),
        new_cs == cs.insert(p, c),
        0 <= a < b < new_cs.len(),
    ensures
        new_cs[a].id != new_cs[b].id,
        new_cs[a].name@ != new_cs[b].name@,
{
    cs.insert_ensures(p, c);
}

/// An insertion cannot remove a country: every id found before is still
/// found after.
proof fn lemma_insert_preserves_has_country_id(
    cs: Seq<Country>,
    new_cs: Seq<Country>,
    p: int,
    c: Country,
    id: i32,
)
    requires
        0 <= p <= cs.len(),
        new_cs == cs.insert(p, c),
        has_country_id(cs, id),
    ensures
        has_country_id(new_cs, id),
{
    cs.insert_ensures(p, c);
    let k = choose|i: int| 0 <= i < cs.len() && (#[trigger] cs[i]).id == id;
    if k < p {
        assert((#[trigger] new_cs[k]).id == id);
    } else {
        assert((#[trigger] new_cs[k + 1]).id == id);
    }
}

/// Some country other than `id` already holds the name `n`.
pub open spec fn other_country_has_name(cs: Seq<Country>, id: i32, n: Seq<char>) -> bool {
    exists|i: int| 0 <= i < cs.len() && (#[trigger] cs[i]).name@ == n && cs[i].id != id
}

/// One filtering step: extending the prefix by one element extends the
/// filtered prefix exactly when the element satisfies the predicate.
pub proof fn lemma_filter_take_step<A>(s: Seq<A>, pred: spec_fn(A) -> bool, i: int)
    requires
        0 <= i < s.len(),
    ensures
        pred(s[i]) ==> s.take(i + 1).filter(pred) == s.take(i).filter(pred).push(s[i]),
        !pred(s[i]) ==> s.take(i + 1).filter(pred) == s.take(i).filter(pred),
{
    assert(s.take(i + 1).drop_last() =~= s.take(i));
    assert(s.take(i + 1).last() == s[i]);
    reveal(Seq::filter);
}

/// An element of a sequence whose filtered projection is empty cannot
/// satisfy the predicate.
pub proof fn lemma_filter_mem_zero<A>(s: Seq<A>, pred: spec_fn(A) -> bool, i: int)
    requires
        0 <= i < s.len(),
        s.filter(pred).len() == 0,
    ensures
        !pred(s[i]),
{
    if pred(s[i]) {
        broadcast use vstd::seq_lib::group_filter_ensures;

        assert(s.filter(pred).contains(s[i]));
    }
}

/// Removing one element keeps every pairwise fact between the remaining
/// elements: the name order, distinct ids and distinct names.
proof fn lemma_remove_pairwise(cs: Seq<Country>, rs: Seq<Country>, k: int, a: int, b: int)
    requires
        sorted_country_names(cs),
        unique_country_ids(cs),
        unique_country_names(cs),
        0 <= k < cs.len(),
        rs == cs.remove(k),
        0 <= a < b < rs.len(),
    ensures
        seq_le(rs[a].name@, rs[b].name@),
        rs[a].id != rs[b].id,
        rs[a].name@ != rs[b].name@,
{
    cs.remove_ensures(k);
}

/// Removing the row of one id and inserting a row with the same id keeps
/// every id that was present.
proof fn lemma_remove_insert_same_id_keeps_ids(
    cs: Seq<Country>,
    rs: Seq<Country>,
    new_cs: Seq<Country>,
    k: int,
    p: int,
    c: Country,
    id: i32,
)
    requires
        0 <= k < cs.len(),
        rs == cs.remove(k),
        0 <= p <= rs.len(),
        new_cs == rs.insert(p, c),
        c.id == cs[k].id,
        has_country_id(cs, id),
    ensures
        has_country_id(new_cs, id),
{
    cs.remove_ensures(k);
    rs.insert_ensures(p, c);
    let w = choose|i: int| 0 <= i < cs.len() && (#[trigger] cs[i]).id == id;
    if w == k {
        assert((#[trigger] new_cs[p]).id == id);
    } else {
        let w2: int = if w < k {
            w
        } else {
            w - 1
        };
        assert(rs[w2].id == id);
        if w2 < p {
            assert((#[trigger] new_cs[w2]).id == id);
        } else {
            assert((#[trigger] new_cs[w2 + 1]).id == id);
        }
    }
}

/// Removing the row of an id that nobody references keeps every referenced
/// id present.
proof fn lemma_guarded_remove_keeps_referenced_ids(
    cs: Seq<Country>,
    rs: Seq<Country>,
    k: int,
    id: i32,
    removed_id: i32,
)
    requires
        unique_country_ids(cs),
        0 <= k < cs.len(),
        rs == cs.remove(k),
        cs[k].id == removed_id,
        has_country_id(cs, id),
        id != removed_id,
    ensures
        has_country_id(rs, id),
{
    cs.remove_ensures(k);
    let w = choose|i: int| 0 <= i < cs.len() && (#[trigger] cs[i]).id == id;
    if w < k {
        assert((#[trigger] rs[w]).id == id);
    } else if w > k {
        assert((#[trigger] rs[w - 1]).id == id);
    }
}

/// One country's joined rows: its states in stored order, each carrying the
/// country's name.
pub open spec fn rows_for_country(c: Country, ss: Seq<State>) -> Seq<StateWithCountry> {
    states_of_country(ss, c.id).map_values(
        |s: State|
            StateWithCountry {
                id: s.id,
                country_id: s.country_id,
                name: s.name,
                country_name: c.name,
            },
    )
}

/// The joined listing: countries in stored order, each followed by its
/// states.
pub open spec fn states_with_countries(cs: Seq<Country>, ss: Seq<State>) -> Seq<StateWithCountry>
    decreases cs.len(),
{
    if cs.len() == 0 {
        Seq::empty()
    } else {
        rows_for_country(cs[0], ss) + states_with_countries(cs.drop_first(), ss)
    }
}

/// Appending one country to the joined listing appends its rows.
proof fn lemma_swc_push(cs: Seq<Country>, c: Country, ss: Seq<State>)
    ensures
        states_with_countries(cs.push(c), ss) == states_with_countries(cs, ss) + rows_for_country(
            c,
            ss,
        ),
    decreases cs.len(),
{
    if cs.len() == 0 {
        let e = Seq::<Country>::empty();
        assert(cs.push(c)[0] == c);
        assert(cs.push(c).drop_first() =~= e);
        assert(states_with_countries(e, ss) == Seq::<StateWithCountry>::empty());
        assert(states_with_countries(cs.push(c), ss) == rows_for_country(c, ss)
            + Seq::<StateWithCountry>::empty());
        assert(rows_for_country(c, ss) + Seq::<StateWithCountry>::empty() =~= rows_for_country(
            c,
            ss,
        ));
        assert(states_with_countries(cs, ss) =~= Seq::<StateWithCountry>::empty());
        assert(states_with_countries(cs, ss) + rows_for_country(c, ss) =~= rows_for_country(
            c,
            ss,
        ));
    } else {
        lemma_swc_push(cs.drop_first(), c, ss);
        assert(cs.push(c).drop_first() =~= cs.drop_first().push(c));
        assert(cs.push(c)[0] == cs[0]);
        assert(rows_for_country(cs[0], ss) + (states_with_countries(cs.drop_first(), ss)
            + rows_for_country(c, ss)) =~= (rows_for_country(cs[0], ss) + states_with_countries(
            cs.drop_first(),
            ss,
        )) + rows_for_country(c, ss));
    }
}

/// After a sorted insertion the state list stays sorted.
proof fn lemma_state_order_after_insert(
    ss: Seq<State>,
    new_ss: Seq<State>,
    p: int,
    st: State,
    a: int,
    b: int,
)
    requires
        sorted_state_names(ss),
        0 <= p <= ss.len(),
        new_ss == ss.insert(p, st),
        forall|j: int| 0 <= j < p ==> !seq_le(st.name@, (#[trigger] ss[j]).name@),
        p < ss.len() ==> seq_le(st.name@, ss[p].name@),
        0 <= a < b < new_ss.len(),
    ensures
        seq_le(new_ss[a].name@, new_ss[b].name@),
{
    ss.insert_ensures(p, st);
    if a == p {
        if b > p && b - 1 > p {
            lemma_seq_le_trans(st.name@, ss[p].name@, ss[b - 1].name@);
        }
    } else if b == p {
        lemma_seq_le_total(st.name@, ss[a].name@);
    }
}

/// Removing one state keeps the pairwise order and distinct ids.
proof fn lemma_state_remove_pairwise(ss: Seq<State>, rs: Seq<State>, k: int, a: int, b: int)
    requires
        sorted_state_names(ss),
        unique_state_ids(ss),
        0 <= k < ss.len(),
        rs == ss.remove(k),
        0 <= a < b < rs.len(),
    ensures
        seq_le(rs[a].name@, rs[b].name@),
        rs[a].id != rs[b].id,
{
    ss.remove_ensures(k);
}

/// An insertion cannot remove a state: every id found before is found after.
proof fn lemma_state_insert_preserves_has_id(
    ss: Seq<State>,
    new_ss: Seq<State>,
    p: int,
    st: State,
    id: i32,
)
    requires
        0 <= p <= ss.len(),
        new_ss == ss.insert(p, st),
        has_state_id(ss, id),
    ensures
        has_state_id(new_ss, id),
{
    ss.insert_ensures(p, st);
    let w = choose|i: int| 0 <= i < ss.len() && (#[trigger] ss[i]).id == id;
    if w < p {
        assert((#[trigger] new_ss[w]).id == id);
    } else {
        assert((#[trigger] new_ss[w + 1]).id == id);
    }
}

/// Removing the row of one state id and inserting a row with the same id
/// keeps every id that was present.
proof fn lemma_state_remove_insert_same_id_keeps_ids(
    ss: Seq<State>,
    rs: Seq<State>,
    new_ss: Seq<State>,
    k: int,
    p: int,
    st: State,
    id: i32,
)
    requires
        0 <= k < ss.len(),
        rs == ss.remove(k),
        0 <= p <= rs.len(),
        new_ss == rs.insert(p, st),
        st.id == ss[k].id,
        has_state_id(ss, id),
    ensures
        has_state_id(new_ss, id),
{
    ss.remove_ensures(k);
    rs.insert_ensures(p, st);
    let w = choose|i: int| 0 <= i < ss.len() && (#[trigger] ss[i]).id == id;
    if w == k {
        assert((#[trigger] new_ss[p]).id == id);
    } else {
        let w2: int = if w < k {
            w
        } else {
            w - 1
        };
        assert(rs[w2].id == id);
        if w2 < p {
            assert((#[trigger] new_ss[w2]).id == id);
        } else {
            assert((#[trigger] new_ss[w2 + 1]).id == id);
        }
    }
}

/// Removing a state that nobody references keeps every referenced id.
proof fn lemma_state_guarded_remove_keeps_ids(
    ss: Seq<State>,
    rs: Seq<State>,
    k: int,
    id: i32,
    removed_id: i32,
)
    requires
        unique_state_ids(ss),
        0 <= k < ss.len(),
        rs == ss.remove(k),
        ss[k].id == removed_id,
        has_state_id(ss, id),
        id != removed_id,
    ensures
        has_state_id(rs, id),
{
    ss.remove_ensures(k);
    let w = choose|i: int| 0 <= i < ss.len() && (#[trigger] ss[i]).id == id;
    if w < k {
        assert((#[trigger] rs[w]).id == id);
    } else if w > k {
        assert((#[trigger] rs[w - 1]).id == id);
    }
}

/// Some account other than `id` already holds the username or the email.
pub open spec fn other_user_has_name_or_email(
    us: Seq<User>,
    id: i32,
    username: Seq<char>,
    email: Seq<char>,
) -> bool {
    exists|i: int|
        0 <= i < us.len() && (#[trigger] us[i]).id != id && (us[i].username@ == username
            || us[i].email@ == email)
}

} // verus!
