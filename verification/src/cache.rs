//! The reference-data cache and its owner. Country and state lists are
//! served from serialized cache entries while they are fresh, repopulated
//! from the directory on a miss, an expiry or a deserialization failure,
//! and invalidated synchronously after every country or state mutation —
//! the write-through discipline that keeps a reader from ever observing
//! stale geography after a completed mutation.
//!
//! Time is a caller-supplied count of seconds; an entry populated at `T`
//! expires at `T + CACHE_TTL_SECONDS` and is never served at or past that
//! instant.
//!
//! A modeling note: here the cache only ever holds payloads this module
//! wrote, so the well-formedness invariant rules a corrupt entry out. A
//! deployed cache store can hold foreign bytes; the read paths keep and
//! verify the deserialization-failure fallback for exactly that case,
//! even though it is unreachable in the model.

use vstd::prelude::*;
use vstd::string::StrSliceExecFns;
use crate::errors::AppError;
use crate::models::{Country, CountryOption, State, StateOption};
use crate::outside::{json_decode_pairs, json_encode_pairs, json_pairs, pairs_view};
use crate::repository::{
    Directory, country_index, has_country_id, has_country_name, has_state_id,
    other_country_has_name, state_index, states_of_country, users_of_country, users_of_state,
};

verus! {

/// How long a cache entry stays servable, in seconds.
pub const CACHE_TTL_SECONDS: u64 = 300;

/// The countries list as plain `(id, name)` pairs, the payload of the
/// countries cache entry.
pub open spec fn country_pairs(cs: Seq<Country>) -> Seq<(i32, Seq<char>)> {
    cs.map_values(|c: Country| (c.id, c.name@))
}

/// One country's states as plain `(id, name)` pairs, the payload of its
/// states cache entry; the country id itself is part of the key.
pub open spec fn state_pairs(ss: Seq<State>, country_id: i32) -> Seq<(i32, Seq<char>)> {
    states_of_country(ss, country_id).map_values(|s: State| (s.id, s.name@))
}

/// The option rows handed to dropdowns carry the same ids and names as the
/// stored countries, in the same order.
pub open spec fn country_options_match(r: Seq<CountryOption>, cs: Seq<Country>) -> bool {
    r.len() == cs.len() && forall|i: int|
        0 <= i < cs.len() ==> (#[trigger] r[i]).id == cs[i].id && r[i].name@ == cs[i].name@
}

/// The option rows of one country's states: same ids and names as the
/// filtered states, each tagged with the country id.
pub open spec fn state_options_match(
    r: Seq<StateOption>,
    ss: Seq<State>,
    country_id: i32,
) -> bool {
    r.len() == ss.len() && forall|i: int|
        0 <= i < ss.len() ==> (#[trigger] r[i]).id == ss[i].id && r[i].name@ == ss[i].name@
            && r[i].country_id == country_id
}

/// The time-bounded store of serialized reference lists.
pub struct GeoCache {
    countries_entry: Option<(String, u64)>,
    state_entries: Vec<(i32, String, u64)>,
}

impl GeoCache {
    /// The countries entry as plain values: payload text and expiry instant.
    pub closed spec fn countries_entry_view(&self) -> Option<(Seq<char>, u64)> {
        match self.countries_entry {
            Some(e) => Some((e.0@, e.1)),
            None => None,
        }
    }

    /// The per-country entries as plain values: key, payload text, expiry.
    pub closed spec fn state_entries_view(&self) -> Seq<(i32, Seq<char>, u64)> {
        self.state_entries@.map_values(|e: (i32, String, u64)| (e.0, e.1@, e.2))
    }
}

pub open spec fn has_entry(es: Seq<(i32, Seq<char>, u64)>, country_id: i32) -> bool {
    exists|i: int| 0 <= i < es.len() && (#[trigger] es[i]).0 == country_id
}

pub open spec fn entry_index(es: Seq<(i32, Seq<char>, u64)>, country_id: i32) -> int {
    choose|i: int| 0 <= i < es.len() && (#[trigger] es[i]).0 == country_id
}

pub open spec fn unique_entry_ids(es: Seq<(i32, Seq<char>, u64)>) -> bool {
    forall|i: int, j: int| 0 <= i < j < es.len() ==> (#[trigger] es[i]).0 != (#[trigger] es[j]).0
}

/// The owner of the durable directory and the reference-data cache. Its
/// well-formedness ties every cache entry's payload to the current tables:
/// the write-through invalidation discipline keeps it true across every
/// mutation, which is exactly why a fresh cache hit is never stale.
pub struct AppState {
    db: Directory,
    cache: GeoCache,
}

impl AppState {
    pub closed spec fn db_spec(&self) -> Directory {
        self.db
    }

    pub closed spec fn cache_spec(&self) -> GeoCache {
        self.cache
    }

    pub open spec fn countries_entry(&self) -> Option<(Seq<char>, u64)> {
        self.cache_spec().countries_entry_view()
    }

    pub open spec fn state_entries(&self) -> Seq<(i32, Seq<char>, u64)> {
        self.cache_spec().state_entries_view()
    }

    pub open spec fn wf(&self) -> bool {
        &&& self.db_spec().wf()
        &&& (self.countries_entry() matches Some(e) ==> e.0 == json_pairs(
            country_pairs(self.db_spec().countries_seq()),
        ))
        &&& forall|k: int|
            0 <= k < self.state_entries().len() ==> (#[trigger] self.state_entries()[k]).1
                == json_pairs(state_pairs(self.db_spec().states_seq(), self.state_entries()[k].0))
        &&& unique_entry_ids(self.state_entries())
    }

    /// An empty application core: empty directory, empty cache.
    pub fn new() -> (r: AppState)
        ensures
            r.wf(),
            r.db_spec().countries_seq() =~= Seq::<Country>::empty(),
            r.db_spec().states_seq() =~= Seq::<State>::empty(),
            r.db_spec().users_seq().len() == 0,
            r.db_spec().admins_seq().len() == 0,
            r.db_spec().country_next() == 1,
            r.db_spec().state_next() == 1,
            r.countries_entry() is None,
            r.state_entries().len() == 0,
    {
        AppState {
            db: Directory::new(),
            cache: GeoCache { countries_entry: None, state_entries: Vec::new() },
        }
    }

    /// Read-only access to the directory.
    pub fn directory(&self) -> (r: &Directory)
        ensures
            r == &self.db_spec(),
    {
        &self.db
    }
}

/// Maps stored countries to dropdown option rows.
pub fn map_country_options(countries: Vec<Country>) -> (r: Vec<CountryOption>)
    ensures
        country_options_match(r@, countries@),
{
    let n = countries.len();
    let mut out: Vec<CountryOption> = Vec::new();
    let mut i: usize = 0;
    while i < n
        invariant
            n == countries@.len(),
            i <= n,
            out@.len() == i,
            forall|j: int|
                0 <= j < i ==> (#[trigger] out@[j]).id == countries@[j].id && out@[j].name@
                    == countries@[j].name@,
        decreases n - i,
    {
        let c = countries[i].clone();
        out.push(CountryOption { id: c.id, name: c.name });
        i += 1;
    }
    out
}

/// Serves the countries list: from the cache while its entry is fresh,
/// otherwise from the directory, repopulating the cache for the next
/// `CACHE_TTL_SECONDS`. Either way the rows reflect the directory's
/// current countries — the invalidation discipline keeps the cached
/// payload synchronized — and a repopulation failure is not an error.
pub fn get_countries_cached(app: &mut AppState, now: u64) -> (r: Vec<CountryOption>)
    requires
        old(app).wf(),
        now <= u64::MAX - 300,
    ensures
        final(app).wf(),
        final(app).db_spec() == old(app).db_spec(),
        final(app).state_entries() == old(app).state_entries(),
        country_options_match(r@, old(app).db_spec().countries_seq()),
        (old(app).countries_entry() matches Some(e) && now < e.1) ==> *final(app) == *old(app),
        !(old(app).countries_entry() matches Some(e) && now < e.1) ==> ((final(app).countries_entry() matches Some(e2) && e2.1 == now + CACHE_TTL_SECONDS) || final(app).countries_entry() == old(app).countries_entry()),
{
    let ghost cs = app.db.countries_seq();
    let mut fresh_hit = false;
    match &app.cache.countries_entry {
        Some(e) => {
            if now < e.1 {
                fresh_hit = true;
            }
        },
        None => {},
    }
    if fresh_hit {
        let blob = match &app.cache.countries_entry {
            Some(e) => &e.0,
            None => unreached(),
        };
        match json_decode_pairs(blob.as_str()) {
            Some(pairs) => {
                let ghost pv = pairs@;
                proof {
                    assert(blob@ == json_pairs(country_pairs(cs)));
                    assert(pairs_view(pv) == country_pairs(cs));
                    assert(pairs_view(pv).len() == pv.len());
                    assert(country_pairs(cs).len() == cs.len());
                    assert(pv.len() == cs.len());
                    assert forall|i: int| 0 <= i < cs.len() implies (#[trigger] pv[i]).0
                        == cs[i].id && pv[i].1@ == cs[i].name@ by {
                        assert(pairs_view(pv)[i] == country_pairs(cs)[i]);
                    }
                }
                let opts = pairs_to_country_options(pairs);
                proof {
                    assert(country_options_match(opts@, cs));
                }
                return opts;
            },
            None => {
                proof {
                    assert(false);
                }
            },
        }
    }
    let rows = app.db.get_countries();
    let options = map_country_options(rows);
    let pairs = country_options_to_pairs(&options);
    proof {
        assert(pairs_view(pairs@) =~= country_pairs(cs));
    }
    match json_encode_pairs(&pairs) {
        Some(json) => {
            app.cache.countries_entry = Some((json, now + CACHE_TTL_SECONDS));
        },
        None => {},
    }
    options
}

/// Rebuilds option rows from a decoded pairs payload.
fn pairs_to_country_options(pairs: Vec<(i32, String)>) -> (r: Vec<CountryOption>)
    ensures
        r@.len() == pairs@.len(),
        forall|i: int|
            0 <= i < pairs@.len() ==> (#[trigger] r@[i]).id == pairs@[i].0 && r@[i].name@
                == pairs@[i].1@,
{
    let n = pairs.len();
    let mut rest = pairs;
    let mut out: Vec<CountryOption> = Vec::new();
    let mut i: usize = 0;
    let ghost orig = rest@;
    while i < n
        invariant
            n == orig.len(),
            i <= n,
            rest@ == orig.skip(i as int),
            out@.len() == i,
            forall|j: int|
                0 <= j < i ==> (#[trigger] out@[j]).id == orig[j].0 && out@[j].name@
                    == orig[j].1@,
        decreases n - i,
    {
        let p = rest.remove(0);
        proof {
            orig.skip(i as int).remove_ensures(0);
            assert(orig.skip(i as int).remove(0) =~= orig.skip(i + 1));
            assert(p == orig[i as int]);
        }
        out.push(CountryOption { id: p.0, name: p.1 });
        i += 1;
    }
    out
}

/// Projects option rows to the pairs payload that the cache stores.
fn country_options_to_pairs(options: &Vec<CountryOption>) -> (r: Vec<(i32, String)>)
    ensures
        r@.len() == options@.len(),
        forall|i: int|
            0 <= i < options@.len() ==> (#[trigger] r@[i]).0 == options@[i].id && r@[i].1@
                == options@[i].name@,
{
    let n = options.len();
    let mut out: Vec<(i32, String)> = Vec::new();
    let mut i: usize = 0;
    while i < n
        invariant
            n == options@.len(),
            i <= n,
            out@.len() == i,
            forall|j: int|
                0 <= j < i ==> (#[trigger] out@[j]).0 == options@[j].id && out@[j].1@
                    == options@[j].name@,
        decreases n - i,
    {
        let o = options[i].clone();
        out.push((o.id, o.name));
        i += 1;
    }
    out
}

/// Rebuilds state option rows from a decoded pairs payload; the country id
/// comes from the cache key.
fn pairs_to_state_options(pairs: Vec<(i32, String)>, country_id: i32) -> (r: Vec<StateOption>)
    ensures
        r@.len() == pairs@.len(),
        forall|i: int|
            0 <= i < pairs@.len() ==> (#[trigger] r@[i]).id == pairs@[i].0 && r@[i].name@
                == pairs@[i].1@ && r@[i].country_id == country_id,
{
    let n = pairs.len();
    let mut rest = pairs;
    let mut out: Vec<StateOption> = Vec::new();
    let mut i: usize = 0;
    let ghost orig = rest@;
    while i < n
        invariant
            n == orig.len(),
            i <= n,
            rest@ == orig.skip(i as int),
            out@.len() == i,
            forall|j: int|
                0 <= j < i ==> (#[trigger] out@[j]).id == orig[j].0 && out@[j].name@ == orig[j].1@
                    && out@[j].country_id == country_id,
        decreases n - i,
    {
        let p = rest.remove(0);
        proof {
            orig.skip(i as int).remove_ensures(0);
            assert(orig.skip(i as int).remove(0) =~= orig.skip(i + 1));
            assert(p == orig[i as int]);
        }
        out.push(StateOption { id: p.0, country_id, name: p.1 });
        i += 1;
    }
    out
}

/// Maps stored state rows to option rows tagged with their country.
fn states_to_options(rows: Vec<State>, country_id: i32) -> (r: Vec<StateOption>)
    ensures
        r@.len() == rows@.len(),
        forall|i: int|
            0 <= i < rows@.len() ==> (#[trigger] r@[i]).id == rows@[i].id && r@[i].name@
                == rows@[i].name@ && r@[i].country_id == country_id,
{
    let n = rows.len();
    let mut out: Vec<StateOption> = Vec::new();
    let mut i: usize = 0;
    while i < n
        invariant
            n == rows@.len(),
            i <= n,
            out@.len() == i,
            forall|j: int|
                0 <= j < i ==> (#[trigger] out@[j]).id == rows@[j].id && out@[j].name@
                    == rows@[j].name@ && out@[j].country_id == country_id,
        decreases n - i,
    {
        let row = rows[i].clone();
        out.push(StateOption { id: row.id, country_id, name: row.name });
        i += 1;
    }
    out
}

/// Projects state option rows to the pairs payload that the cache stores.
fn state_options_to_pairs(options: &Vec<StateOption>) -> (r: Vec<(i32, String)>)
    ensures
        r@.len() == options@.len(),
        forall|i: int|
            0 <= i < options@.len() ==> (#[trigger] r@[i]).0 == options@[i].id && r@[i].1@
                == options@[i].name@,
{
    let n = options.len();
    let mut out: Vec<(i32, String)> = Vec::new();
    let mut i: usize = 0;
    while i < n
        invariant
            n == options@.len(),
            i <= n,
            out@.len() == i,
            forall|j: int|
                0 <= j < i ==> (#[trigger] out@[j]).0 == options@[j].id && out@[j].1@
                    == options@[j].name@,
        decreases n - i,
    {
        let o = options[i].clone();
        out.push((o.id, o.name));
        i += 1;
    }
    out
}

/// Where one country's entry sits in the cache, if anywhere.
fn find_entry_pos(cache: &GeoCache, country_id: i32) -> (r: Option<usize>)
    ensures
        r matches Some(i) ==> i < cache.state_entries_view().len()
            && cache.state_entries_view()[i as int].0 == country_id,
        r is None ==> !has_entry(cache.state_entries_view(), country_id),
{
    let n = cache.state_entries.len();
    let mut i: usize = 0;
    while i < n
        invariant
            n == cache.state_entries@.len(),
            i <= n,
            forall|j: int| 0 <= j < i ==> (#[trigger] cache.state_entries@[j]).0 != country_id,
        decreases n - i,
    {
        if cache.state_entries[i].0 == country_id {
            proof {
                assert(cache.state_entries_view()[i as int].0
                    == cache.state_entries@[i as int].0);
            }
            return Some(i);
        }
        i += 1;
    }
    proof {
        assert forall|j: int| 0 <= j < cache.state_entries_view().len() implies (#[trigger]
        cache.state_entries_view()[j]).0 != country_id by {
            assert(cache.state_entries_view()[j].0 == cache.state_entries@[j].0);
        }
    }
    None
}

/// Serves one country's states: from the cache while that country's entry
/// is fresh, otherwise from the directory, repopulating the entry for the
/// next `CACHE_TTL_SECONDS`. The rows always reflect the directory's
/// current states of that country.
pub fn get_states_cached(app: &mut AppState, country_id: i32, now: u64) -> (r: Vec<StateOption>)
    requires
        old(app).wf(),
        now <= u64::MAX - 300,
    ensures
        final(app).wf(),
        final(app).db_spec() == old(app).db_spec(),
        final(app).countries_entry() == old(app).countries_entry(),
        state_options_match(
            r@,
            states_of_country(old(app).db_spec().states_seq(), country_id),
            country_id,
        ),
        (has_entry(old(app).state_entries(), country_id) && now < old(app).state_entries()[
            entry_index(old(app).state_entries(), country_id)
        ].2) ==> *final(app) == *old(app),
        !(has_entry(old(app).state_entries(), country_id) && now < old(app).state_entries()[
            entry_index(old(app).state_entries(), country_id)
        ].2) ==> ((has_entry(final(app).state_entries(), country_id) && final(app).state_entries()[entry_index(final(app).state_entries(), country_id)].2 == now
            + CACHE_TTL_SECONDS) || final(app).state_entries() == old(app).state_entries()),
{
    let ghost ss = app.db.states_seq();
    let ghost old_entries = app.state_entries();
    if let Some(pos) = find_entry_pos(&app.cache, country_id) {
        proof {
            assert(has_entry(old_entries, country_id)) by {
                assert((#[trigger] old_entries[pos as int]).0 == country_id);
            }
            let k = entry_index(old_entries, country_id);
            assert((#[trigger] old_entries[k]).0 == country_id);
            if k != pos as int {
                assert(false);
            }
        }
        let expires = app.cache.state_entries[pos].2;
        proof {
            assert(old_entries[pos as int].2 == app.cache.state_entries@[pos as int].2);
            assert(old_entries[pos as int].1 == app.cache.state_entries@[pos as int].1@);
        }
        if now < expires {
            let blob = &app.cache.state_entries[pos].1;
            match json_decode_pairs(blob.as_str()) {
                Some(pairs) => {
                    let ghost pv = pairs@;
                    let ghost fs = states_of_country(ss, country_id);
                    proof {
                        assert(blob@ == json_pairs(state_pairs(ss, country_id)));
                        assert(pairs_view(pv) == state_pairs(ss, country_id));
                        assert(pairs_view(pv).len() == pv.len());
                        assert(state_pairs(ss, country_id).len() == fs.len());
                        assert forall|i2: int| 0 <= i2 < fs.len() implies (#[trigger] pv[i2]).0
                            == fs[i2].id && pv[i2].1@ == fs[i2].name@ by {
                            assert(pairs_view(pv)[i2] == state_pairs(ss, country_id)[i2]);
                        }
                    }
                    let opts = pairs_to_state_options(pairs, country_id);
                    proof {
                        assert(state_options_match(opts@, fs, country_id));
                    }
                    return opts;
                },
                None => {
                    proof {
                        assert(false);
                    }
                },
            }
        }
    }
    let rows = app.db.get_states_by_country(country_id);
    let options = states_to_options(rows, country_id);
    let pairs = state_options_to_pairs(&options);
    proof {
        assert(pairs_view(pairs@) =~= state_pairs(ss, country_id));
    }
    match json_encode_pairs(&pairs) {
        Some(json) => {
            let ghost before = old(app).state_entries();
            if let Some(pos) = find_entry_pos(&app.cache, country_id) {
                let ghost vec1 = app.cache.state_entries@;
                app.cache.state_entries.remove(pos);
                let ghost vec2 = app.cache.state_entries@;
                app.cache.state_entries.push((country_id, json, now + CACHE_TTL_SECONDS));
                proof {
                    vec1.remove_ensures(pos as int);
                    let vec3 = app.cache.state_entries@;
                    let fin = app.state_entries();
                    assert forall|k: int| 0 <= k < fin.len() implies (#[trigger] fin[k]).1
                        == json_pairs(state_pairs(ss, fin[k].0)) by {
                        assert(fin[k] == (vec3[k].0, vec3[k].1@, vec3[k].2));
                        if k < vec2.len() {
                            assert(vec3[k] == vec2[k]);
                            let m: int = if k < pos as int {
                                k
                            } else {
                                k + 1
                            };
                            assert(vec2[k] == vec1[m]);
                            assert(before[m] == (vec1[m].0, vec1[m].1@, vec1[m].2));
                            assert(before[m].1 == json_pairs(state_pairs(ss, before[m].0)));
                        } else {
                            assert(vec3[k] == (country_id, json, (now
                                + CACHE_TTL_SECONDS) as u64));
                            assert(json@ == json_pairs(pairs_view(pairs@)));
                        }
                    }
                    assert forall|k1: int, k2: int| 0 <= k1 < k2 < fin.len() implies (#[trigger]
                    fin[k1]).0 != (#[trigger] fin[k2]).0 by {
                        assert(fin[k1].0 == vec3[k1].0);
                        assert(fin[k2].0 == vec3[k2].0);
                        let m1: int = if k1 < pos as int {
                            k1
                        } else {
                            k1 + 1
                        };
                        if k2 < vec2.len() {
                            let m2: int = if k2 < pos as int {
                                k2
                            } else {
                                k2 + 1
                            };
                            assert(vec3[k1] == vec1[m1] && vec3[k2] == vec1[m2]);
                            assert(before[m1].0 == vec1[m1].0 && before[m2].0 == vec1[m2].0);
                        } else {
                            assert(vec3[k2].0 == country_id);
                            assert(vec3[k1] == vec1[m1]);
                            assert(before[m1].0 == vec1[m1].0);
                            assert(before[pos as int].0 == vec1[pos as int].0);
                            assert(m1 != pos as int);
                        }
                    }
                    assert(unique_entry_ids(fin));
                    assert(fin[vec2.len() as int].0 == country_id);
                    lemma_unique_entry_at(fin, country_id, vec2.len() as int);
                    assert(fin[vec2.len() as int].2 == (now + CACHE_TTL_SECONDS) as u64);
                }
            } else {
                let ghost vec1 = app.cache.state_entries@;
                app.cache.state_entries.push((country_id, json, now + CACHE_TTL_SECONDS));
                proof {
                    let vec3 = app.cache.state_entries@;
                    let fin = app.state_entries();
                    assert(!has_entry(before, country_id));
                    assert forall|k: int| 0 <= k < fin.len() implies (#[trigger] fin[k]).1
                        == json_pairs(state_pairs(ss, fin[k].0)) by {
                        assert(fin[k] == (vec3[k].0, vec3[k].1@, vec3[k].2));
                        if k < vec1.len() {
                            assert(vec3[k] == vec1[k]);
                            assert(before[k] == (vec1[k].0, vec1[k].1@, vec1[k].2));
                            assert(before[k].1 == json_pairs(state_pairs(ss, before[k].0)));
                        } else {
                            assert(vec3[k] == (country_id, json, (now
                                + CACHE_TTL_SECONDS) as u64));
                            assert(json@ == json_pairs(pairs_view(pairs@)));
                        }
                    }
                    assert forall|k1: int, k2: int| 0 <= k1 < k2 < fin.len() implies (#[trigger]
                    fin[k1]).0 != (#[trigger] fin[k2]).0 by {
                        assert(fin[k1].0 == vec3[k1].0);
                        assert(fin[k2].0 == vec3[k2].0);
                        assert(vec3[k1] == vec1[k1]);
                        assert(before[k1].0 == vec1[k1].0);
                        if k2 < vec1.len() {
                            assert(vec3[k2] == vec1[k2]);
                            assert(before[k2].0 == vec1[k2].0);
                        } else {
                            assert(vec3[k2].0 == country_id);
                        }
                    }
                    assert(unique_entry_ids(fin));
                    assert(fin[vec1.len() as int].0 == country_id);
                    lemma_unique_entry_at(fin, country_id, vec1.len() as int);
                    assert(fin[vec1.len() as int].2 == (now + CACHE_TTL_SECONDS) as u64);
                }
            }
        },
        None => {},
    }
    options
}


/// Under pairwise-distinct entry keys, an index holding the key is the
/// index the cache resolves it to.
proof fn lemma_unique_entry_at(es: Seq<(i32, Seq<char>, u64)>, cid: i32, i: int)
    requires
        unique_entry_ids(es),
        0 <= i < es.len(),
        es[i].0 == cid,
    ensures
        has_entry(es, cid),
        entry_index(es, cid) == i,
{
    assert(has_entry(es, cid)) by {
        assert((#[trigger] es[i]).0 == cid);
    }
    let k = entry_index(es, cid);
    assert((#[trigger] es[k]).0 == cid);
    if k != i {
        assert(false);
    }
}

/// Deletes the countries entry and the entry of every country the
/// directory currently lists, as the write-through discipline demands
/// after a successful country or state mutation. An entry keyed by an id
/// the directory no longer lists may survive; the caller supplies the fact
/// that such payloads already reflect the current tables.
pub fn invalidate_geo_cache(app: &mut AppState)
    requires
        old(app).db_spec().wf(),
        unique_entry_ids(old(app).state_entries()),
        forall|k: int|
            0 <= k < old(app).state_entries().len() ==> !has_country_id(
                old(app).db_spec().countries_seq(),
                (#[trigger] old(app).state_entries()[k]).0,
            ) ==> old(app).state_entries()[k].1 == json_pairs(
                state_pairs(old(app).db_spec().states_seq(), old(app).state_entries()[k].0),
            ),
    ensures
        final(app).wf(),
        final(app).db_spec() == old(app).db_spec(),
        final(app).countries_entry() is None,
        forall|cid: i32|
            has_country_id(old(app).db_spec().countries_seq(), cid) ==> !has_entry(
                final(app).state_entries(),
                cid,
            ),
{
    let ghost cs = app.db.countries_seq();
    let ghost ss = app.db.states_seq();
    let ghost old_entries = app.state_entries();
    let n = app.cache.state_entries.len();
    let mut out: Vec<(i32, String, u64)> = Vec::new();
    let mut i: usize = 0;
    while i < n
        invariant
            *app == *old(app),
            old(app).db_spec().wf(),
            unique_entry_ids(old_entries),
            forall|k: int|
                0 <= k < old_entries.len() ==> !has_country_id(
                    cs,
                    (#[trigger] old_entries[k]).0,
                ) ==> old_entries[k].1 == json_pairs(state_pairs(ss, old_entries[k].0)),
            cs == app.db.countries_seq(),
            ss == app.db.states_seq(),
            old_entries == app.state_entries(),
            n == app.cache.state_entries@.len(),
            i <= n,
            forall|k: int|
                0 <= k < out@.len() ==> !has_country_id(cs, (#[trigger] out@[k]).0) && out@[k].1@
                    == json_pairs(state_pairs(ss, out@[k].0)),
            forall|k: int|
                0 <= k < out@.len() ==> exists|j: int|
                    0 <= j < i && old_entries[j].0 == (#[trigger] out@[k]).0,
            forall|k1: int, k2: int|
                0 <= k1 < k2 < out@.len() ==> (#[trigger] out@[k1]).0 != (#[trigger] out@[k2]).0,
        decreases n - i,
    {
        proof {
            assert((#[trigger] old_entries[i as int]).0 == app.cache.state_entries@[i as int].0);
            assert(old_entries[i as int].1 == app.cache.state_entries@[i as int].1@);
            assert(old_entries[i as int].2 == app.cache.state_entries@[i as int].2);
        }
        let cid = app.cache.state_entries[i].0;
        if !app.db.has_country(cid) {
            let blob = app.cache.state_entries[i].1.clone();
            let expires = app.cache.state_entries[i].2;
            let ghost out_before = out@;
            out.push((cid, blob, expires));
            proof {
                assert forall|k: int| 0 <= k < out@.len() implies exists|j: int|
                    0 <= j < i + 1 && old_entries[j].0 == (#[trigger] out@[k]).0 by {
                    if k < out_before.len() {
                        assert(out@[k] == out_before[k]);
                        let j = choose|j: int|
                            0 <= j < i && old_entries[j].0 == (#[trigger] out_before[k]).0;
                        assert(old_entries[j].0 == out@[k].0);
                    } else {
                        assert(old_entries[i as int].0 == out@[k].0);
                    }
                }
                assert forall|k1: int, k2: int| 0 <= k1 < k2 < out@.len() implies (#[trigger]
                out@[k1]).0 != (#[trigger] out@[k2]).0 by {
                    if k2 == out_before.len() {
                        let j = choose|j: int|
                            0 <= j < i && old_entries[j].0 == (#[trigger] out_before[k1]).0;
                        assert(old_entries[j].0 == out@[k1].0);
                        assert(old_entries[i as int].0 == out@[k2].0);
                    }
                }
            }
        }
        i += 1;
    }
    app.cache.state_entries = out;
    app.cache.countries_entry = None;
    proof {
        let fin = app.state_entries();
        assert forall|k: int| 0 <= k < fin.len() implies !has_country_id(
            cs,
            (#[trigger] fin[k]).0,
        ) && fin[k].1 == json_pairs(state_pairs(ss, fin[k].0)) by {
            assert(fin[k] == (app.cache.state_entries@[k].0, app.cache.state_entries@[k].1@,
            app.cache.state_entries@[k].2));
        }
        assert forall|cid: i32| has_country_id(cs, cid) implies !has_entry(fin, cid) by {
            if has_entry(fin, cid) {
                let k = entry_index(fin, cid);
                assert((#[trigger] fin[k]).0 == cid);
            }
        }
        assert forall|k1: int, k2: int| 0 <= k1 < k2 < fin.len() implies (#[trigger] fin[k1]).0
            != (#[trigger] fin[k2]).0 by {
            assert(fin[k1].0 == app.cache.state_entries@[k1].0);
            assert(fin[k2].0 == app.cache.state_entries@[k2].0);
        }
        assert(unique_entry_ids(fin));
    }
}

/// Inserting an element the predicate rejects leaves a filtered projection
/// unchanged.
proof fn lemma_filter_insert_other<A>(s: Seq<A>, p: int, x: A, pred: spec_fn(A) -> bool)
    requires
        0 <= p <= s.len(),
        !pred(x),
    ensures
        s.insert(p, x).filter(pred) == s.filter(pred),
{
    let s1 = s.subrange(0, p);
    let s2 = s.subrange(p, s.len() as int);
    assert(s.insert(p, x) =~= s1 + (seq![x] + s2));
    assert(s =~= s1 + s2);
    Seq::filter_distributes_over_add(s1, seq![x] + s2, pred);
    Seq::filter_distributes_over_add(seq![x], s2, pred);
    Seq::filter_distributes_over_add(s1, s2, pred);
    assert(seq![x].filter(pred) =~= Seq::<A>::empty()) by {
        reveal_with_fuel(Seq::filter, 2);
        assert(seq![x].drop_last() =~= Seq::<A>::empty());
        assert(seq![x].last() == x);
    }
    assert(s.insert(p, x).filter(pred) =~= s.filter(pred));
}

/// Removing an element the predicate rejects leaves a filtered projection
/// unchanged.
proof fn lemma_filter_remove_other<A>(s: Seq<A>, k: int, pred: spec_fn(A) -> bool)
    requires
        0 <= k < s.len(),
        !pred(s[k]),
    ensures
        s.remove(k).filter(pred) == s.filter(pred),
{
    let s1 = s.subrange(0, k);
    let s2 = s.subrange(k + 1, s.len() as int);
    assert(s =~= s1 + (seq![s[k]] + s2));
    assert(s.remove(k) =~= s1 + s2);
    Seq::filter_distributes_over_add(s1, seq![s[k]] + s2, pred);
    Seq::filter_distributes_over_add(seq![s[k]], s2, pred);
    Seq::filter_distributes_over_add(s1, s2, pred);
    assert(seq![s[k]].filter(pred) =~= Seq::<A>::empty()) by {
        reveal_with_fuel(Seq::filter, 2);
        assert(seq![s[k]].drop_last() =~= Seq::<A>::empty());
        assert(seq![s[k]].last() == s[k]);
    }
    assert(s.remove(k).filter(pred) =~= s.filter(pred));
}

/// A country mutation leaves the state table alone, so every cache
/// entry's payload still reflects it; this discharges the invalidation
/// precondition.
proof fn lemma_entries_stable_same_states(pre: AppState, post: AppState)
    requires
        pre.wf(),
        post.state_entries() == pre.state_entries(),
        post.db_spec().states_seq() == pre.db_spec().states_seq(),
    ensures
        forall|k: int|
            0 <= k < post.state_entries().len() ==> (#[trigger] post.state_entries()[k]).1
                == json_pairs(state_pairs(post.db_spec().states_seq(), post.state_entries()[k].0)),
{
}

/// Creates a country and invalidates the reference-data cache before
/// returning, as every geography mutation must.
pub fn create_country_invalidating(app: &mut AppState, name: &str) -> (r: Result<i32, AppError>)
    requires
        old(app).wf(),
    ensures
        final(app).wf(),
        final(app).db_spec().states_seq() == old(app).db_spec().states_seq(),
        final(app).db_spec().users_seq() == old(app).db_spec().users_seq(),
        final(app).db_spec().admins_seq() == old(app).db_spec().admins_seq(),
        final(app).db_spec().state_next() == old(app).db_spec().state_next(),
        final(app).db_spec().user_next() == old(app).db_spec().user_next(),
        final(app).db_spec().admin_next() == old(app).db_spec().admin_next(),
        r is Ok ==> final(app).db_spec().country_next() == old(app).db_spec().country_next() + 1,
        (r matches Ok(id) && id == old(app).db_spec().country_next()) <==> (!has_country_name(
            old(app).db_spec().countries_seq(),
            name@,
        ) && old(app).db_spec().can_add_country()),
        r == Err::<i32, AppError>(AppError::Conflict) <==> has_country_name(
            old(app).db_spec().countries_seq(),
            name@,
        ),
        r is Err ==> r == Err::<i32, AppError>(AppError::Conflict) || r == Err::<i32, AppError>(
            AppError::Unavailable,
        ),
        r is Err ==> *final(app) == *old(app),
        r matches Ok(id) ==> exists|p: int, c: Country|
            0 <= p <= old(app).db_spec().countries_seq().len() && c.id == id && c.name@ == name@
                && final(app).db_spec().countries_seq()
                == old(app).db_spec().countries_seq().insert(p, c),
        r is Ok ==> final(app).countries_entry() is None && forall|cid: i32|
            has_country_id(final(app).db_spec().countries_seq(), cid) ==> !has_entry(
                final(app).state_entries(),
                cid,
            ),
{
    let result = app.db.create_country(name);
    if result.is_err() {
        return result;
    }
    proof {
        lemma_entries_stable_same_states(*old(app), *app);
    }
    invalidate_geo_cache(app);
    result
}

/// Renames a country and invalidates the reference-data cache before
/// returning.
pub fn update_country_invalidating(app: &mut AppState, country_id: i32, name: &str) -> (r:
    Result<(), AppError>)
    requires
        old(app).wf(),
    ensures
        final(app).wf(),
        final(app).db_spec().states_seq() == old(app).db_spec().states_seq(),
        final(app).db_spec().users_seq() == old(app).db_spec().users_seq(),
        final(app).db_spec().admins_seq() == old(app).db_spec().admins_seq(),
        final(app).db_spec().country_next() == old(app).db_spec().country_next(),
        final(app).db_spec().state_next() == old(app).db_spec().state_next(),
        final(app).db_spec().user_next() == old(app).db_spec().user_next(),
        final(app).db_spec().admin_next() == old(app).db_spec().admin_next(),
        r is Ok <==> !other_country_has_name(
            old(app).db_spec().countries_seq(),
            country_id,
            name@,
        ),
        r == Err::<(), AppError>(AppError::Conflict) <==> other_country_has_name(
            old(app).db_spec().countries_seq(),
            country_id,
            name@,
        ),
        r is Err ==> *final(app) == *old(app),
        r is Ok && !has_country_id(old(app).db_spec().countries_seq(), country_id) ==> final(app).db_spec().countries_seq() == old(app).db_spec().countries_seq(),
        r is Ok && has_country_id(old(app).db_spec().countries_seq(), country_id) ==> exists|
            p: int,
            c: Country,
        |
            0 <= p <= old(app).db_spec().countries_seq().len() - 1 && c.id == country_id
                && c.name@ == name@ && final(app).db_spec().countries_seq()
                == old(app).db_spec().countries_seq().remove(
                country_index(old(app).db_spec().countries_seq(), country_id),
            ).insert(p, c),
        r is Ok ==> final(app).countries_entry() is None && forall|cid: i32|
            has_country_id(final(app).db_spec().countries_seq(), cid) ==> !has_entry(
                final(app).state_entries(),
                cid,
            ),
{
    let result = app.db.update_country(country_id, name);
    if result.is_err() {
        return result;
    }
    proof {
        lemma_entries_stable_same_states(*old(app), *app);
    }
    invalidate_geo_cache(app);
    result
}

/// Deletes a country behind the referential guard: a country still
/// referenced by at least one state or one account is not deleted and the
/// request fails with `Conflict`, leaving everything unchanged. On
/// success the reference-data cache is invalidated before returning.
pub fn delete_country_guarded(app: &mut AppState, country_id: i32) -> (r: Result<(), AppError>)
    requires
        old(app).wf(),
    ensures
        final(app).wf(),
        final(app).db_spec().states_seq() == old(app).db_spec().states_seq(),
        final(app).db_spec().users_seq() == old(app).db_spec().users_seq(),
        final(app).db_spec().admins_seq() == old(app).db_spec().admins_seq(),
        final(app).db_spec().country_next() == old(app).db_spec().country_next(),
        final(app).db_spec().state_next() == old(app).db_spec().state_next(),
        final(app).db_spec().user_next() == old(app).db_spec().user_next(),
        final(app).db_spec().admin_next() == old(app).db_spec().admin_next(),
        r == Err::<(), AppError>(AppError::Conflict) <==> (states_of_country(
            old(app).db_spec().states_seq(),
            country_id,
        ).len() > 0 || users_of_country(old(app).db_spec().users_seq(), country_id).len() > 0),
        r is Err ==> *final(app) == *old(app),
        r is Ok <==> (states_of_country(old(app).db_spec().states_seq(), country_id).len() == 0
            && users_of_country(old(app).db_spec().users_seq(), country_id).len() == 0),
        r is Ok && !has_country_id(old(app).db_spec().countries_seq(), country_id) ==> final(app).db_spec().countries_seq() == old(app).db_spec().countries_seq(),
        r is Ok && has_country_id(old(app).db_spec().countries_seq(), country_id) ==> final(app).db_spec().countries_seq() == old(app).db_spec().countries_seq().remove(
            country_index(old(app).db_spec().countries_seq(), country_id),
        ),
        r is Ok ==> !has_country_id(final(app).db_spec().countries_seq(), country_id),
        r is Ok ==> final(app).countries_entry() is None && forall|cid: i32|
            has_country_id(final(app).db_spec().countries_seq(), cid) ==> !has_entry(
                final(app).state_entries(),
                cid,
            ),
{
    let dependent_states = app.db.count_states_by_country_id(country_id);
    if dependent_states > 0 {
        return Err(AppError::Conflict);
    }
    let dependent_users = app.db.count_users_by_country_id(country_id);
    if dependent_users > 0 {
        return Err(AppError::Conflict);
    }
    let result = app.db.delete_country(country_id);
    proof {
        lemma_entries_stable_same_states(*old(app), *app);
    }
    invalidate_geo_cache(app);
    result
}

/// Creates a state and invalidates the reference-data cache before
/// returning.
pub fn create_state_invalidating(app: &mut AppState, country_id: i32, name: &str) -> (r: Result<
    i32,
    AppError,
>)
    requires
        old(app).wf(),
    ensures
        final(app).wf(),
        final(app).db_spec().countries_seq() == old(app).db_spec().countries_seq(),
        final(app).db_spec().users_seq() == old(app).db_spec().users_seq(),
        final(app).db_spec().admins_seq() == old(app).db_spec().admins_seq(),
        final(app).db_spec().country_next() == old(app).db_spec().country_next(),
        final(app).db_spec().user_next() == old(app).db_spec().user_next(),
        final(app).db_spec().admin_next() == old(app).db_spec().admin_next(),
        r is Ok ==> final(app).db_spec().state_next() == old(app).db_spec().state_next() + 1,
        (r matches Ok(id) && id == old(app).db_spec().state_next()) <==> (has_country_id(
            old(app).db_spec().countries_seq(),
            country_id,
        ) && old(app).db_spec().can_add_state()),
        r == Err::<i32, AppError>(AppError::NotFound) <==> !has_country_id(
            old(app).db_spec().countries_seq(),
            country_id,
        ),
        r is Err ==> r == Err::<i32, AppError>(AppError::NotFound) || r == Err::<i32, AppError>(
            AppError::Unavailable,
        ),
        r is Err ==> *final(app) == *old(app),
        r matches Ok(id) ==> exists|p: int, st: State|
            0 <= p <= old(app).db_spec().states_seq().len() && st.id == id && st.country_id
                == country_id && st.name@ == name@ && final(app).db_spec().states_seq()
                == old(app).db_spec().states_seq().insert(p, st),
        r is Ok ==> final(app).countries_entry() is None && forall|cid: i32|
            has_country_id(final(app).db_spec().countries_seq(), cid) ==> !has_entry(
                final(app).state_entries(),
                cid,
            ),
{
    let ghost ss = app.db.states_seq();
    let ghost cs = app.db.countries_seq();
    let result = app.db.create_state(country_id, name);
    if result.is_err() {
        return result;
    }
    proof {
        let entries = app.state_entries();
        let new_ss = app.db.states_seq();
        assert forall|k: int|
            0 <= k < entries.len() implies !has_country_id(
            cs,
            (#[trigger] entries[k]).0,
        ) ==> entries[k].1 == json_pairs(state_pairs(new_ss, entries[k].0)) by {
            if !has_country_id(cs, entries[k].0) {
                let (pp, st) = choose|pp: int, st: State|
                    #![trigger ss.insert(pp, st)]
                    0 <= pp <= ss.len() && st.id == result->Ok_0 && st.country_id == country_id
                        && st.name@ == name@ && new_ss == ss.insert(pp, st);
                lemma_filter_insert_other(
                    ss,
                    pp,
                    st,
                    |s2: State| s2.country_id == entries[k].0,
                );
                assert(states_of_country(new_ss, entries[k].0) == states_of_country(
                    ss,
                    entries[k].0,
                ));
            }
        }
    }
    invalidate_geo_cache(app);
    result
}

/// Rewrites a state and invalidates the reference-data cache before
/// returning.
pub fn update_state_invalidating(
    app: &mut AppState,
    state_id: i32,
    country_id: i32,
    name: &str,
) -> (r: Result<(), AppError>)
    requires
        old(app).wf(),
    ensures
        final(app).wf(),
        final(app).db_spec().countries_seq() == old(app).db_spec().countries_seq(),
        final(app).db_spec().users_seq() == old(app).db_spec().users_seq(),
        final(app).db_spec().admins_seq() == old(app).db_spec().admins_seq(),
        final(app).db_spec().country_next() == old(app).db_spec().country_next(),
        final(app).db_spec().state_next() == old(app).db_spec().state_next(),
        final(app).db_spec().user_next() == old(app).db_spec().user_next(),
        final(app).db_spec().admin_next() == old(app).db_spec().admin_next(),
        r is Ok <==> (has_country_id(old(app).db_spec().countries_seq(), country_id)
            || !has_state_id(old(app).db_spec().states_seq(), state_id)),
        r is Err ==> *final(app) == *old(app) && r == Err::<(), AppError>(AppError::NotFound),
        r is Ok && !has_state_id(old(app).db_spec().states_seq(), state_id) ==> final(app).db_spec().states_seq() == old(app).db_spec().states_seq(),
        r is Ok && has_state_id(old(app).db_spec().states_seq(), state_id) ==> exists|
            p: int,
            st: State,
        |
            0 <= p <= old(app).db_spec().states_seq().len() - 1 && st.id == state_id
                && st.country_id == country_id && st.name@ == name@ && final(app).db_spec().states_seq() == old(app).db_spec().states_seq().remove(
                state_index(old(app).db_spec().states_seq(), state_id),
            ).insert(p, st),
        r is Ok ==> final(app).countries_entry() is None && forall|cid: i32|
            has_country_id(final(app).db_spec().countries_seq(), cid) ==> !has_entry(
                final(app).state_entries(),
                cid,
            ),
{
    let ghost ss = app.db.states_seq();
    let ghost cs = app.db.countries_seq();
    let ghost pre = *app;
    let result = app.db.update_state(state_id, country_id, name);
    if result.is_err() {
        return result;
    }
    proof {
        let entries = app.state_entries();
        let new_ss = app.db.states_seq();
        assert forall|k: int|
            0 <= k < entries.len() implies !has_country_id(
            cs,
            (#[trigger] entries[k]).0,
        ) ==> entries[k].1 == json_pairs(state_pairs(new_ss, entries[k].0)) by {
            if !has_country_id(cs, entries[k].0) {
                if !has_state_id(ss, state_id) {
                    assert(new_ss == ss);
                } else {
                    let ki = state_index(ss, state_id);
                    let (pp, st) = choose|pp: int, st: State|
                        #![trigger ss.remove(ki).insert(pp, st)]
                        0 <= pp <= ss.len() - 1 && st.id == state_id && st.country_id
                            == country_id && st.name@ == name@ && new_ss == ss.remove(ki).insert(
                            pp,
                            st,
                        );
                    let pred = |s2: State| s2.country_id == entries[k].0;
                    assert(has_country_id(cs, ss[ki].country_id));
                    lemma_filter_remove_other(ss, ki, pred);
                    assert(has_country_id(cs, country_id));
                    lemma_filter_insert_other(ss.remove(ki), pp, st, pred);
                    assert(states_of_country(new_ss, entries[k].0) == states_of_country(
                        ss,
                        entries[k].0,
                    ));
                }
            }
        }
    }
    invalidate_geo_cache(app);
    result
}

/// Deletes a state behind the referential guard: a state still referenced
/// by at least one account is not deleted and the request fails with
/// `Conflict`, leaving everything unchanged. On success the
/// reference-data cache is invalidated before returning.
pub fn delete_state_guarded(app: &mut AppState, state_id: i32) -> (r: Result<(), AppError>)
    requires
        old(app).wf(),
    ensures
        final(app).wf(),
        final(app).db_spec().countries_seq() == old(app).db_spec().countries_seq(),
        final(app).db_spec().users_seq() == old(app).db_spec().users_seq(),
        final(app).db_spec().admins_seq() == old(app).db_spec().admins_seq(),
        final(app).db_spec().country_next() == old(app).db_spec().country_next(),
        final(app).db_spec().state_next() == old(app).db_spec().state_next(),
        final(app).db_spec().user_next() == old(app).db_spec().user_next(),
        final(app).db_spec().admin_next() == old(app).db_spec().admin_next(),
        r == Err::<(), AppError>(AppError::Conflict) <==> users_of_state(
            old(app).db_spec().users_seq(),
            state_id,
        ).len() > 0,
        r is Err ==> *final(app) == *old(app),
        r is Ok <==> users_of_state(old(app).db_spec().users_seq(), state_id).len() == 0,
        r is Ok && !has_state_id(old(app).db_spec().states_seq(), state_id) ==> final(app).db_spec().states_seq() == old(app).db_spec().states_seq(),
        r is Ok && has_state_id(old(app).db_spec().states_seq(), state_id) ==> final(app).db_spec().states_seq() == old(app).db_spec().states_seq().remove(
            state_index(old(app).db_spec().states_seq(), state_id),
        ),
        r is Ok ==> !has_state_id(final(app).db_spec().states_seq(), state_id),
        r is Ok ==> final(app).countries_entry() is None && forall|cid: i32|
            has_country_id(final(app).db_spec().countries_seq(), cid) ==> !has_entry(
                final(app).state_entries(),
                cid,
            ),
{
    let dependent_users = app.db.count_users_by_state_id(state_id);
    if dependent_users > 0 {
        return Err(AppError::Conflict);
    }
    let ghost ss = app.db.states_seq();
    let ghost cs = app.db.countries_seq();
    let result = app.db.delete_state(state_id);
    proof {
        let entries = app.state_entries();
        let new_ss = app.db.states_seq();
        assert forall|k: int|
            0 <= k < entries.len() implies !has_country_id(
            cs,
            (#[trigger] entries[k]).0,
        ) ==> entries[k].1 == json_pairs(state_pairs(new_ss, entries[k].0)) by {
            if !has_country_id(cs, entries[k].0) {
                if !has_state_id(ss, state_id) {
                    assert(new_ss == ss);
                } else {
                    let ki = state_index(ss, state_id);
                    let pred = |s2: State| s2.country_id == entries[k].0;
                    assert(has_country_id(cs, ss[ki].country_id));
                    lemma_filter_remove_other(ss, ki, pred);
                    assert(states_of_country(new_ss, entries[k].0) == states_of_country(
                        ss,
                        entries[k].0,
                    ));
                }
            }
        }
    }
    invalidate_geo_cache(app);
    result
}

impl AppState {
    /// Creates an account through the directory; the reference-data cache
    /// is untouched, since accounts never appear in it.
    pub fn create_user(
        &mut self,
        username: &str,
        email: &str,
        password: &str,
        address: Option<String>,
        country_id: Option<i32>,
        state_id: Option<i32>,
        now: u64,
    ) -> (r: Result<i32, AppError>)
        requires
            old(self).wf(),
        ensures
            final(self).wf(),
            final(self).db_spec().countries_seq() == old(self).db_spec().countries_seq(),
            final(self).db_spec().states_seq() == old(self).db_spec().states_seq(),
            final(self).db_spec().admins_seq() == old(self).db_spec().admins_seq(),
            final(self).countries_entry() == old(self).countries_entry(),
            final(self).state_entries() == old(self).state_entries(),
            r == Err::<i32, AppError>(AppError::Conflict) <==> (crate::repository::has_username(
                old(self).db_spec().users_seq(),
                username@,
            ) || crate::repository::has_user_email(old(self).db_spec().users_seq(), email@)),
            r == Err::<i32, AppError>(AppError::NotFound) <==> (!(
            crate::repository::has_username(old(self).db_spec().users_seq(), username@)
                || crate::repository::has_user_email(old(self).db_spec().users_seq(), email@)) && (
            (country_id matches Some(c) && !has_country_id(
                old(self).db_spec().countries_seq(),
                c,
            )) || (state_id matches Some(sid) && !has_state_id(
                old(self).db_spec().states_seq(),
                sid,
            )))),
            r is Err ==> r == Err::<i32, AppError>(AppError::Conflict) || r == Err::<
                i32,
                AppError,
            >(AppError::NotFound) || r == Err::<i32, AppError>(AppError::Unavailable),
            r is Err ==> *final(self) == *old(self),
            r matches Ok(id) ==> id == old(self).db_spec().user_next() && exists|u: crate::models::User|
                u.id == id && u.username@ == username@ && u.email@ == email@ && u.created_at
                    == now && u.address == address && u.country_id == country_id && u.state_id
                    == state_id && crate::outside::bcrypt_verifies(password@, u.password_hash@)
                    && final(self).db_spec().users_seq()
                    == old(self).db_spec().users_seq().push(u),
    {
        self.db.create_user(username, email, password, address, country_id, state_id, now)
    }

    /// Rewrites an account's profile fields through the directory.
    pub fn update_user(
        &mut self,
        user_id: i32,
        username: &str,
        email: &str,
        address: Option<String>,
        country_id: Option<i32>,
        state_id: Option<i32>,
    ) -> (r: Result<(), AppError>)
        requires
            old(self).wf(),
        ensures
            final(self).wf(),
            final(self).db_spec().countries_seq() == old(self).db_spec().countries_seq(),
            final(self).db_spec().states_seq() == old(self).db_spec().states_seq(),
            final(self).db_spec().admins_seq() == old(self).db_spec().admins_seq(),
            final(self).countries_entry() == old(self).countries_entry(),
            final(self).state_entries() == old(self).state_entries(),
            r is Err ==> *final(self) == *old(self),
            !crate::repository::has_user_id(old(self).db_spec().users_seq(), user_id) ==> r is Ok
                && *final(self) == *old(self),
            crate::repository::has_user_id(old(self).db_spec().users_seq(), user_id) ==> {
                let conflict = crate::repository::other_user_has_name_or_email(
                    old(self).db_spec().users_seq(),
                    user_id,
                    username@,
                    email@,
                );
                let dangling = (country_id matches Some(c) && !has_country_id(
                    old(self).db_spec().countries_seq(),
                    c,
                )) || (state_id matches Some(sid) && !has_state_id(
                    old(self).db_spec().states_seq(),
                    sid,
                ));
                &&& (r == Err::<(), AppError>(AppError::Conflict) <==> conflict)
                &&& (r == Err::<(), AppError>(AppError::NotFound) <==> (!conflict && dangling))
                &&& (r is Ok <==> (!conflict && !dangling))
            },
            r is Ok && crate::repository::has_user_id(old(self).db_spec().users_seq(), user_id)
                ==> exists|u: crate::models::User|
                u.id == user_id && u.username@ == username@ && u.email@ == email@ && u.address
                    == address && u.country_id == country_id && u.state_id == state_id
                    && u.password_hash == crate::repository::user_by_id(
                    old(self).db_spec().users_seq(),
                    user_id,
                ).password_hash && final(self).db_spec().users_seq()
                    == old(self).db_spec().users_seq().update(
                    crate::repository::user_index(old(self).db_spec().users_seq(), user_id),
                    u,
                ),
    {
        self.db.update_user(user_id, username, email, address, country_id, state_id)
    }

    /// Replaces an account's password through the directory.
    pub fn update_password(&mut self, user_id: i32, new_password: &str) -> (r: Result<
        (),
        AppError,
    >)
        requires
            old(self).wf(),
        ensures
            final(self).wf(),
            final(self).db_spec().countries_seq() == old(self).db_spec().countries_seq(),
            final(self).db_spec().states_seq() == old(self).db_spec().states_seq(),
            final(self).db_spec().admins_seq() == old(self).db_spec().admins_seq(),
            final(self).countries_entry() == old(self).countries_entry(),
            final(self).state_entries() == old(self).state_entries(),
            r is Err ==> *final(self) == *old(self) && r == Err::<(), AppError>(
                AppError::Unavailable,
            ),
            r is Ok && !crate::repository::has_user_id(old(self).db_spec().users_seq(), user_id)
                ==> *final(self) == *old(self),
            r is Ok && crate::repository::has_user_id(old(self).db_spec().users_seq(), user_id)
                ==> exists|u: crate::models::User|
                u.id == user_id && u.username == crate::repository::user_by_id(
                    old(self).db_spec().users_seq(),
                    user_id,
                ).username && u.email == crate::repository::user_by_id(
                    old(self).db_spec().users_seq(),
                    user_id,
                ).email && u.address == crate::repository::user_by_id(
                    old(self).db_spec().users_seq(),
                    user_id,
                ).address && u.country_id == crate::repository::user_by_id(
                    old(self).db_spec().users_seq(),
                    user_id,
                ).country_id && u.state_id == crate::repository::user_by_id(
                    old(self).db_spec().users_seq(),
                    user_id,
                ).state_id && crate::outside::bcrypt_verifies(new_password@, u.password_hash@)
                    && final(self).db_spec().users_seq()
                    == old(self).db_spec().users_seq().update(
                    crate::repository::user_index(old(self).db_spec().users_seq(), user_id),
                    u,
                ),
    {
        self.db.update_password(user_id, new_password)
    }

    /// Deletes an account through the directory.
    pub fn delete_user(&mut self, user_id: i32) -> (r: Result<(), AppError>)
        requires
            old(self).wf(),
        ensures
            final(self).wf(),
            final(self).db_spec().countries_seq() == old(self).db_spec().countries_seq(),
            final(self).db_spec().states_seq() == old(self).db_spec().states_seq(),
            final(self).db_spec().admins_seq() == old(self).db_spec().admins_seq(),
            final(self).countries_entry() == old(self).countries_entry(),
            final(self).state_entries() == old(self).state_entries(),
            r is Ok,
            !crate::repository::has_user_id(old(self).db_spec().users_seq(), user_id) ==> *final(self) == *old(self),
            crate::repository::has_user_id(old(self).db_spec().users_seq(), user_id) ==> final(self).db_spec().users_seq() == old(self).db_spec().users_seq().remove(
                crate::repository::user_index(old(self).db_spec().users_seq(), user_id),
            ),
            !crate::repository::has_user_id(final(self).db_spec().users_seq(), user_id),
    {
        self.db.delete_user(user_id)
    }

    /// Creates an administrator through the directory.
    pub fn create_admin(&mut self, username: &str, email: &str, password: &str, now: u64) -> (r:
        Result<i32, AppError>)
        requires
            old(self).wf(),
        ensures
            final(self).wf(),
            final(self).db_spec().countries_seq() == old(self).db_spec().countries_seq(),
            final(self).db_spec().states_seq() == old(self).db_spec().states_seq(),
            final(self).db_spec().users_seq() == old(self).db_spec().users_seq(),
            final(self).countries_entry() == old(self).countries_entry(),
            final(self).state_entries() == old(self).state_entries(),
            r == Err::<i32, AppError>(AppError::Conflict) <==> (
            crate::repository::has_admin_username(old(self).db_spec().admins_seq(), username@)
                || crate::repository::has_admin_email(old(self).db_spec().admins_seq(), email@)),
            r is Err ==> *final(self) == *old(self),
            r matches Ok(id) ==> id == old(self).db_spec().admin_next() && exists|a: crate::models::Admin|
                a.id == id && a.username@ == username@ && a.email@ == email@ && a.created_at
                    == Some(now) && crate::outside::bcrypt_verifies(password@, a.password_hash@)
                    && final(self).db_spec().admins_seq()
                    == old(self).db_spec().admins_seq().push(a),
    {
        self.db.create_admin(username, email, password, now)
    }

    /// Inserts an account whose password hash was already computed, for
    /// provisioning paths that carry hashes rather than passwords.
    pub fn create_user_with_hash(
        &mut self,
        username: &str,
        email: &str,
        password_hash: String,
        address: Option<String>,
        country_id: Option<i32>,
        state_id: Option<i32>,
        now: u64,
    ) -> (r: Result<i32, AppError>)
        requires
            old(self).wf(),
        ensures
            final(self).wf(),
            final(self).db_spec().countries_seq() == old(self).db_spec().countries_seq(),
            final(self).db_spec().states_seq() == old(self).db_spec().states_seq(),
            final(self).db_spec().admins_seq() == old(self).db_spec().admins_seq(),
            final(self).countries_entry() == old(self).countries_entry(),
            final(self).state_entries() == old(self).state_entries(),
            r == Err::<i32, AppError>(AppError::Conflict) <==> (crate::repository::has_username(
                old(self).db_spec().users_seq(),
                username@,
            ) || crate::repository::has_user_email(old(self).db_spec().users_seq(), email@)),
            r == Err::<i32, AppError>(AppError::NotFound) <==> (!(
            crate::repository::has_username(old(self).db_spec().users_seq(), username@)
                || crate::repository::has_user_email(old(self).db_spec().users_seq(), email@)) && (
            (country_id matches Some(c) && !has_country_id(
                old(self).db_spec().countries_seq(),
                c,
            )) || (state_id matches Some(sid) && !has_state_id(
                old(self).db_spec().states_seq(),
                sid,
            )))),
            (r matches Ok(id) && id == old(self).db_spec().user_next()) <==> (!(
            crate::repository::has_username(old(self).db_spec().users_seq(), username@)
                || crate::repository::has_user_email(old(self).db_spec().users_seq(), email@))
                && (country_id matches Some(c) ==> has_country_id(
                old(self).db_spec().countries_seq(),
                c,
            )) && (state_id matches Some(sid) ==> has_state_id(
                old(self).db_spec().states_seq(),
                sid,
            )) && old(self).db_spec().can_add_user()),
            r is Err ==> r == Err::<i32, AppError>(AppError::Conflict) || r == Err::<
                i32,
                AppError,
            >(AppError::NotFound) || r == Err::<i32, AppError>(AppError::Unavailable),
            r is Err ==> *final(self) == *old(self),
            r matches Ok(id) ==> id == old(self).db_spec().user_next() && final(self).db_spec().user_next() == old(self).db_spec().user_next() + 1 && exists|u: crate::models::User|
                u.id == id && u.username@ == username@ && u.email@ == email@ && u.password_hash
                    == password_hash && u.created_at == now && u.address == address
                    && u.country_id == country_id && u.state_id == state_id && final(self).db_spec().users_seq() == old(self).db_spec().users_seq().push(u),
    {
        self.db.create_user_with_hash(
            username,
            email,
            password_hash,
            address,
            country_id,
            state_id,
            now,
        )
    }
}

impl AppState {
    /// When the countries cache entry expires, if one is stored.
    pub fn countries_cache_expiry(&self) -> (r: Option<u64>)
        ensures
            r matches Some(e) ==> self.countries_entry() matches Some(entry) && entry.1 == e,
            r is None <==> self.countries_entry() is None,
    {
        match &self.cache.countries_entry {
            Some(e) => Some(e.1),
            None => None,
        }
    }

    /// When one country's states cache entry expires, if one is stored.
    pub fn states_cache_expiry(&self, country_id: i32) -> (r: Option<u64>)
        requires
            self.wf(),
        ensures
            r matches Some(e) ==> has_entry(self.state_entries(), country_id)
                && self.state_entries()[entry_index(self.state_entries(), country_id)].2 == e,
            r is None <==> !has_entry(self.state_entries(), country_id),
    {
        match find_entry_pos(&self.cache, country_id) {
            Some(i) => {
                proof {
                    lemma_unique_entry_at(
                        self.state_entries(),
                        country_id,
                        i as int,
                    );
                }
                Some(self.cache.state_entries[i].2)
            },
            None => None,
        }
    }
}

/// Cache correctness across a mutation barrier: in a well-formed
/// application core — the state every operation here preserves — every
/// cache entry's payload is the serialization of the directory's current
/// tables. A read issued strictly after a completed mutation and its
/// synchronous invalidation therefore reflects that mutation, whether it
/// hits the cache or falls through to the directory.
pub proof fn lemma_cache_never_stale(app: AppState)
    requires
        app.wf(),
    ensures
        app.countries_entry() matches Some(e) ==> e.0 == json_pairs(
            country_pairs(app.db_spec().countries_seq()),
        ),
        forall|k: int|
            0 <= k < app.state_entries().len() ==> (#[trigger] app.state_entries()[k]).1
                == json_pairs(
                state_pairs(app.db_spec().states_seq(), app.state_entries()[k].0),
            ),
{
}

} // verus!
