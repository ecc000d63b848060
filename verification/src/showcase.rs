//! The showcase configuration: which databases exist, which public
//! showcases present them, and which one is shown by default.  Maps from
//! keys are kept as lists of entries whose keys are distinct.
use vstd::prelude::*;

use crate::text::{is_key_text, key_text, str_eq, to_lowercase, trim, trimmed, unicode_lowercase, views};

verus! {

/// A database a showcase can present.
#[derive(Debug)]
pub struct DatabaseConfig {
    pub db_path: String,
    pub display_name: String,
}

/// A public showcase of one database.
#[derive(Debug)]
pub struct ShowcaseEntry {
    pub display_name: String,
    pub database_key: String,
    pub anonymize_names: bool,
    pub showcase_market_ids: Vec<i64>,
    pub hidden_category_ids: Vec<i64>,
    pub non_anonymous_account_ids: Vec<i64>,
    pub password: Option<String>,
}

/// The showcase configuration.
#[derive(Debug)]
pub struct ShowcaseConfig {
    pub default_showcase: Option<String>,
    pub databases: Vec<(String, DatabaseConfig)>,
    pub showcases: Vec<(String, ShowcaseEntry)>,
}

/// A bootcamp of the older configuration format.
#[derive(Debug)]
pub struct LegacyBootcampConfig {
    pub db_path: String,
    pub display_name: String,
    pub anonymize_names: bool,
    pub showcase_market_ids: Vec<i64>,
    pub hidden_category_ids: Vec<i64>,
    pub non_anonymous_account_ids: Vec<i64>,
}

/// The older configuration format: bootcamps by key and the active one.
#[derive(Debug)]
pub struct LegacyShowcaseConfig {
    pub active_bootcamp: Option<String>,
    pub bootcamps: Vec<(String, LegacyBootcampConfig)>,
}

/// The keys of a list of entries.
pub open spec fn keys_of<V>(entries: Seq<(String, V)>) -> Seq<Seq<char>> {
    entries.map_values(|e: (String, V)| e.0@)
}

/// No key occurs twice.
pub open spec fn keys_distinct<V>(entries: Seq<(String, V)>) -> bool {
    forall|i: int, j: int|
        0 <= i < j < entries.len() ==> (#[trigger] entries[i]).0@ != (#[trigger] entries[j]).0@
}

/// The position of the entry with key `key`, if any (the first, should
/// keys repeat).
pub open spec fn key_index<V>(entries: Seq<(String, V)>, key: Seq<char>) -> Option<int>
    decreases entries.len(),
{
    if entries.len() == 0 {
        None
    } else {
        match key_index(entries.drop_last(), key) {
            Some(i) => Some(i),
            None => if entries.last().0@ == key {
                Some(entries.len() - 1)
            } else {
                None
            },
        }
    }
}

proof fn lemma_key_index<V>(entries: Seq<(String, V)>, key: Seq<char>)
    ensures
        key_index(entries, key) matches Some(i) ==> 0 <= i < entries.len() && entries[i].0@ == key
            && forall|k: int| 0 <= k < i ==> (#[trigger] entries[k]).0@ != key,
        key_index(entries, key) is None ==> forall|k: int|
            0 <= k < entries.len() ==> (#[trigger] entries[k]).0@ != key,
    decreases entries.len(),
{
    if entries.len() > 0 {
        let t = entries.drop_last();
        lemma_key_index(t, key);
        assert(entries.last() == entries[entries.len() - 1]);
        match key_index(t, key) {
            Some(i) => {
                assert(t[i] == entries[i]);
                assert forall|k: int| 0 <= k < i implies (#[trigger] entries[k]).0@ != key by {
                    assert(t[k] == entries[k]);
                }
            },
            None => {
                assert forall|k: int| 0 <= k < t.len() implies (#[trigger] entries[k]).0@ != key by {
                    assert(t[k] == entries[k]);
                }
            },
        }
    }
}

/// Find the entry with key `key`.
fn find_key<V>(entries: &Vec<(String, V)>, key: &str) -> (r: Option<usize>)
    ensures
        r matches Some(i) ==> key_index(entries@, key@) == Some(i as int) && i < entries@.len(),
        r is None ==> key_index(entries@, key@) is None,
{
    proof {
        lemma_key_index(entries@, key@);
    }
    let mut i: usize = 0;
    while i < entries.len()
        invariant
            i <= entries@.len(),
            forall|k: int| 0 <= k < i ==> (#[trigger] entries@[k]).0@ != key@,
            key_index(entries@, key@) matches Some(j) ==> 0 <= j < entries@.len() && entries@[j].0@
                == key@ && forall|k: int| 0 <= k < j ==> (#[trigger] entries@[k]).0@ != key@,
            key_index(entries@, key@) is None ==> forall|k: int|
                0 <= k < entries@.len() ==> (#[trigger] entries@[k]).0@ != key@,
        decreases entries@.len() - i,
    {
        if str_eq(entries[i].0.as_str(), key) {
            return Some(i);
        }
        i = i + 1;
    }
    None
}

impl ShowcaseConfig {
    /// Keys of databases and of showcases are each distinct.
    pub open spec fn wf(&self) -> bool {
        keys_distinct(self.databases@) && keys_distinct(self.showcases@)
    }

    /// An empty configuration.
    pub fn empty() -> (r: ShowcaseConfig)
        ensures
            r.default_showcase is None,
            r.databases@.len() == 0,
            r.showcases@.len() == 0,
            r.wf(),
    {
        ShowcaseConfig { default_showcase: None, databases: Vec::new(), showcases: Vec::new() }
    }

    /// The showcase with key `key`.
    pub fn get_showcase(&self, key: &str) -> (r: Option<&ShowcaseEntry>)
        ensures
            r is None <==> key_index(self.showcases@, key@) is None,
            r matches Some(e) ==> *e == self.showcases@[key_index(self.showcases@, key@)->Some_0].1,
    {
        match find_key(&self.showcases, key) {
            Some(i) => Some(&self.showcases[i].1),
            None => None,
        }
    }

    /// The default showcase with its key, when one is set and exists.
    pub fn get_default_showcase(&self) -> (r: Option<(&str, &ShowcaseEntry)>)
        ensures
            r is None <==> (self.default_showcase is None || key_index(
                self.showcases@,
                self.default_showcase->Some_0@,
            ) is None),
            r matches Some(p) ==> p.0@ == self.default_showcase->Some_0@ && *p.1
                == self.showcases@[key_index(
                self.showcases@,
                self.default_showcase->Some_0@,
            )->Some_0].1,
    {
        match &self.default_showcase {
            Some(key) => match find_key(&self.showcases, key.as_str()) {
                Some(i) => Some((key.as_str(), &self.showcases[i].1)),
                None => None,
            },
            None => None,
        }
    }

    /// The showcase asked for by key (with its stored key), or the default
    /// one when none is asked for.
    pub fn resolve_showcase(&self, requested_showcase_key: Option<&str>) -> (r: Option<
        (&str, &ShowcaseEntry),
    >)
        ensures
            requested_showcase_key matches Some(key) ==> {
                &&& (r is None <==> key_index(self.showcases@, key@) is None)
                &&& (r matches Some(p) ==> {
                    let i = key_index(self.showcases@, key@)->Some_0;
                    p.0@ == self.showcases@[i].0@ && *p.1 == self.showcases@[i].1
                })
            },
            requested_showcase_key is None ==> {
                &&& (r is None <==> (self.default_showcase is None || key_index(
                    self.showcases@,
                    self.default_showcase->Some_0@,
                ) is None))
                &&& (r matches Some(p) ==> p.0@ == self.default_showcase->Some_0@ && *p.1
                    == self.showcases@[key_index(
                    self.showcases@,
                    self.default_showcase->Some_0@,
                )->Some_0].1)
            },
    {
        match requested_showcase_key {
            Some(key) => match find_key(&self.showcases, key) {
                Some(i) => Some((self.showcases[i].0.as_str(), &self.showcases[i].1)),
                None => None,
            },
            None => self.get_default_showcase(),
        }
    }

    /// The database a showcase presents.
    pub fn get_database_for_showcase(&self, showcase: &ShowcaseEntry) -> (r: Option<&DatabaseConfig>)
        ensures
            r is None <==> key_index(self.databases@, showcase.database_key@) is None,
            r matches Some(d) ==> *d == self.databases@[key_index(
                self.databases@,
                showcase.database_key@,
            )->Some_0].1,
    {
        match find_key(&self.databases, showcase.database_key.as_str()) {
            Some(i) => Some(&self.databases[i].1),
            None => None,
        }
    }

    /// The configuration an older one describes: each bootcamp becomes a
    /// database and a showcase of it under the same key (same display name,
    /// no password), and the active bootcamp becomes the default showcase.
    pub fn from_legacy(legacy: LegacyShowcaseConfig) -> (r: ShowcaseConfig)
        requires
            keys_distinct(legacy.bootcamps@),
        ensures
            r.wf(),
            opt_view_eq(r.default_showcase, legacy.active_bootcamp),
            keys_of(r.databases@) == keys_of(legacy.bootcamps@),
            keys_of(r.showcases@) == keys_of(legacy.bootcamps@),
            forall|i: int|
                0 <= i < legacy.bootcamps@.len() ==> legacy_entry_matches(
                    #[trigger] legacy.bootcamps@[i],
                    r.databases@[i],
                    r.showcases@[i],
                ),
    {
        let LegacyShowcaseConfig { active_bootcamp, bootcamps } = legacy;
        let ghost old_bootcamps = bootcamps@;
        let mut databases: Vec<(String, DatabaseConfig)> = Vec::new();
        let mut showcases: Vec<(String, ShowcaseEntry)> = Vec::new();
        let mut rest = bootcamps;
        let mut taken: Vec<(String, LegacyBootcampConfig)> = Vec::new();
        let n = rest.len();
        proof {
            assert(old_bootcamps.subrange(0, 0) =~= Seq::<(String, LegacyBootcampConfig)>::empty());
        }
        let mut i: usize = 0;
        while i < n
            invariant
                n == old_bootcamps.len(),
                i <= n,
                rest@ == old_bootcamps.subrange(i as int, n as int),
                databases@.len() == i,
                showcases@.len() == i,
                forall|k: int|
                    0 <= k < i ==> legacy_entry_matches(
                        #[trigger] old_bootcamps[k],
                        databases@[k],
                        showcases@[k],
                    ),
            decreases n - i,
        {
            let ghost before = rest@;
            let (key, b) = rest.remove(0);
            proof {
                assert(before[0] == old_bootcamps[i as int]);
                assert(rest@ =~= old_bootcamps.subrange(i + 1, n as int));
            }
            let LegacyBootcampConfig {
                db_path,
                display_name,
                anonymize_names,
                showcase_market_ids,
                hidden_category_ids,
                non_anonymous_account_ids,
            } = b;
            let db_key = key.clone();
            let db_display = display_name.clone();
            databases.push((db_key, DatabaseConfig { db_path, display_name: db_display }));
            let showcase_key = key.clone();
            showcases.push(
                (
                    showcase_key,
                    ShowcaseEntry {
                        display_name,
                        database_key: key,
                        anonymize_names,
                        showcase_market_ids,
                        hidden_category_ids,
                        non_anonymous_account_ids,
                        password: None,
                    },
                ),
            );
            i = i + 1;
        }
        proof {
            assert(keys_of(databases@) =~= keys_of(old_bootcamps));
            assert(keys_of(showcases@) =~= keys_of(old_bootcamps));
            assert forall|a: int, b: int| 0 <= a < b < databases@.len() implies (
            #[trigger] databases@[a]).0@ != (#[trigger] databases@[b]).0@ by {
                assert(legacy_entry_matches(old_bootcamps[a], databases@[a], showcases@[a]));
                assert(legacy_entry_matches(old_bootcamps[b], databases@[b], showcases@[b]));
            }
            assert forall|a: int, b: int| 0 <= a < b < showcases@.len() implies (
            #[trigger] showcases@[a]).0@ != (#[trigger] showcases@[b]).0@ by {
                assert(legacy_entry_matches(old_bootcamps[a], databases@[a], showcases@[a]));
                assert(legacy_entry_matches(old_bootcamps[b], databases@[b], showcases@[b]));
            }
        }
        ShowcaseConfig { default_showcase: active_bootcamp, databases, showcases }
    }
}

impl ShowcaseConfig {
    /// Add a showcase under `key`, replacing the one stored under it.
    pub fn insert_showcase(&mut self, key: String, entry: ShowcaseEntry)
        requires
            old(self).wf(),
        ensures
            final(self).wf(),
            final(self).databases@ == old(self).databases@,
            final(self).default_showcase == old(self).default_showcase,
            match key_index(old(self).showcases@, key@) {
                Some(i) => final(self).showcases@ == old(self).showcases@.update(i, (key, entry)),
                None => final(self).showcases@ == old(self).showcases@.push((key, entry)),
            },
    {
        proof {
            lemma_key_index(self.showcases@, key@);
        }
        match find_key(&self.showcases, key.as_str()) {
            Some(i) => {
                let ghost before = self.showcases@;
                self.showcases.set(i, (key, entry));
                proof {
                    assert forall|a: int, b: int|
                        0 <= a < b < self.showcases@.len() implies (#[trigger] self.showcases@[a]).0@
                        != (#[trigger] self.showcases@[b]).0@ by {
                        if a != i && b != i {
                            assert(self.showcases@[a] == before[a] && self.showcases@[b] == before[b]);
                        } else if a == i {
                            assert(self.showcases@[b] == before[b]);
                        } else {
                            assert(self.showcases@[a] == before[a]);
                        }
                    }
                }
            },
            None => {
                let ghost before = self.showcases@;
                let ghost k = key@;
                self.showcases.push((key, entry));
                proof {
                    assert forall|a: int, b: int|
                        0 <= a < b < self.showcases@.len() implies (#[trigger] self.showcases@[a]).0@
                        != (#[trigger] self.showcases@[b]).0@ by {
                        assert(self.showcases@[a] == before[a]);
                        if b < before.len() {
                            assert(self.showcases@[b] == before[b]);
                        }
                    }
                }
            },
        }
    }

    /// Add a database under `key`, replacing the one stored under it.
    pub fn insert_database(&mut self, key: String, database: DatabaseConfig)
        requires
            old(self).wf(),
        ensures
            final(self).wf(),
            final(self).showcases@ == old(self).showcases@,
            final(self).default_showcase == old(self).default_showcase,
            match key_index(old(self).databases@, key@) {
                Some(i) => final(self).databases@ == old(self).databases@.update(i, (key, database)),
                None => final(self).databases@ == old(self).databases@.push((key, database)),
            },
    {
        proof {
            lemma_key_index(self.databases@, key@);
        }
        match find_key(&self.databases, key.as_str()) {
            Some(i) => {
                let ghost before = self.databases@;
                self.databases.set(i, (key, database));
                proof {
                    assert forall|a: int, b: int|
                        0 <= a < b < self.databases@.len() implies (#[trigger] self.databases@[a]).0@
                        != (#[trigger] self.databases@[b]).0@ by {
                        if a != i && b != i {
                            assert(self.databases@[a] == before[a] && self.databases@[b] == before[b]);
                        } else if a == i {
                            assert(self.databases@[b] == before[b]);
                        } else {
                            assert(self.databases@[a] == before[a]);
                        }
                    }
                }
            },
            None => {
                let ghost before = self.databases@;
                self.databases.push((key, database));
                proof {
                    assert forall|a: int, b: int|
                        0 <= a < b < self.databases@.len() implies (#[trigger] self.databases@[a]).0@
                        != (#[trigger] self.databases@[b]).0@ by {
                        assert(self.databases@[a] == before[a]);
                        if b < before.len() {
                            assert(self.databases@[b] == before[b]);
                        }
                    }
                }
            },
        }
    }

    /// Remove the showcase stored under `key` (and stop showing it by
    /// default); `false` when there is none.
    pub fn remove_showcase(&mut self, key: &str) -> (removed: bool)
        requires
            old(self).wf(),
        ensures
            final(self).wf(),
            final(self).databases@ == old(self).databases@,
            removed == key_index(old(self).showcases@, key@) is Some,
            match key_index(old(self).showcases@, key@) {
                Some(i) => final(self).showcases@ == old(self).showcases@.remove(i),
                None => final(self).showcases@ == old(self).showcases@,
            },
            removed && crate::text::opt_view(old(self).default_showcase) == Some(key@)
                ==> final(self).default_showcase is None,
            !(removed && crate::text::opt_view(old(self).default_showcase) == Some(key@))
                ==> final(self).default_showcase == old(self).default_showcase,
    {
        match find_key(&self.showcases, key) {
            None => false,
            Some(i) => {
                let ghost before = self.showcases@;
                self.showcases.remove(i);
                proof {
                    assert forall|a: int, b: int|
                        0 <= a < b < self.showcases@.len() implies (#[trigger] self.showcases@[a]).0@
                        != (#[trigger] self.showcases@[b]).0@ by {
                        let a0 = if a < i { a } else { a + 1 };
                        let b0 = if b < i { b } else { b + 1 };
                        assert(self.showcases@[a] == before[a0]);
                        assert(self.showcases@[b] == before[b0]);
                    }
                }
                let is_default = match &self.default_showcase {
                    Some(d) => str_eq(d.as_str(), key),
                    None => false,
                };
                if is_default {
                    self.default_showcase = None;
                }
                true
            },
        }
    }
}

/// Why a showcase request is refused.
#[derive(Clone, Copy, Debug, PartialEq, Eq, Structural)]
pub enum ShowcaseFailure {
    /// The key is malformed or reserved, or names a missing database.
    BadRequest,
    /// No showcase is stored under the key.
    NotFound,
}

/// A requested showcase key, normalized; refused when malformed or
/// reserved for a page of the site.
pub open spec fn spec_showcase_key(raw: Seq<char>) -> Result<Seq<char>, ShowcaseFailure> {
    match spec_checked_key(unicode_lowercase(trimmed(raw))) {
        None => Err(ShowcaseFailure::BadRequest),
        Some(k) => if reserved_key(k) {
            Err(ShowcaseFailure::BadRequest)
        } else {
            Ok(k)
        },
    }
}

/// Normalize a requested showcase key.
pub fn normalize_showcase_key(raw: &str) -> (r: Result<String, ShowcaseFailure>)
    ensures
        match (r, spec_showcase_key(raw@)) {
            (Ok(a), Ok(b)) => a@ == b,
            (Err(a), Err(b)) => a == b,
            _ => false,
        },
{
    match normalize_key(raw) {
        None => Err(ShowcaseFailure::BadRequest),
        Some(k) => if is_reserved_showcase_key(k.as_str()) {
            Err(ShowcaseFailure::BadRequest)
        } else {
            Ok(k)
        },
    }
}

/// Normalize a requested database key; refused when malformed.
pub fn normalize_database_key(raw: &str) -> (r: Result<String, ShowcaseFailure>)
    ensures
        match (r, spec_checked_key(unicode_lowercase(trimmed(raw@)))) {
            (Ok(a), Some(b)) => a@ == b,
            (Err(a), None) => a == ShowcaseFailure::BadRequest,
            _ => false,
        },
{
    match normalize_key(raw) {
        None => Err(ShowcaseFailure::BadRequest),
        Some(k) => Ok(k),
    }
}

/// `ids` with `id` removed where it first occurs, or added at the end when
/// it does not occur.
pub open spec fn toggled(ids: Seq<i64>, id: i64) -> Seq<i64> {
    match first_position(ids, id) {
        Some(p) => ids.remove(p),
        None => ids.push(id),
    }
}

/// The first position of `id` in `ids`.
pub open spec fn first_position(ids: Seq<i64>, id: i64) -> Option<int>
    decreases ids.len(),
{
    if ids.len() == 0 {
        None
    } else {
        match first_position(ids.drop_last(), id) {
            Some(p) => Some(p),
            None => if ids.last() == id {
                Some(ids.len() - 1)
            } else {
                None
            },
        }
    }
}

proof fn lemma_first_position(ids: Seq<i64>, id: i64)
    ensures
        first_position(ids, id) matches Some(p) ==> 0 <= p < ids.len() && ids[p] == id && forall|k: int|
            0 <= k < p ==> ids[k] != id,
        first_position(ids, id) is None ==> forall|k: int| 0 <= k < ids.len() ==> ids[k] != id,
    decreases ids.len(),
{
    if ids.len() > 0 {
        let t = ids.drop_last();
        lemma_first_position(t, id);
        assert forall|k: int| 0 <= k < t.len() implies t[k] == ids[k] by {}
        assert(ids.last() == ids[ids.len() - 1]);
    }
}

/// Where `id` first occurs in `ids`.
fn position_of(ids: &Vec<i64>, id: i64) -> (r: Option<usize>)
    ensures
        r matches Some(p) ==> first_position(ids@, id) == Some(p as int) && p < ids@.len(),
        r is None ==> first_position(ids@, id) is None,
{
    proof {
        lemma_first_position(ids@, id);
    }
    let mut i: usize = 0;
    while i < ids.len()
        invariant
            i <= ids@.len(),
            forall|k: int| 0 <= k < i ==> ids@[k] != id,
            first_position(ids@, id) matches Some(p) ==> 0 <= p < ids@.len() && ids@[p] == id
                && forall|k: int| 0 <= k < p ==> ids@[k] != id,
            first_position(ids@, id) is None ==> forall|k: int| 0 <= k < ids@.len() ==> ids@[k] != id,
        decreases ids@.len() - i,
    {
        if ids[i] == id {
            return Some(i);
        }
        i = i + 1;
    }
    None
}

/// Toggling an id twice in a list without repeats leaves the same ids
/// listed: a hidden category shown again is no longer hidden, and back.
pub proof fn lemma_toggle_twice(ids: Seq<i64>, id: i64, x: i64)
    requires
        forall|a: int, b: int| 0 <= a < b < ids.len() ==> ids[a] != ids[b],
    ensures
        toggled(toggled(ids, id), id).contains(x) == ids.contains(x),
{
    lemma_first_position(ids, id);
    let t = toggled(ids, id);
    lemma_first_position(t, id);
    match first_position(ids, id) {
        Some(p) => {
            assert forall|k: int| 0 <= k < t.len() implies t[k] != id by {
                if k < p {
                    assert(t[k] == ids[k]);
                } else {
                    assert(t[k] == ids[k + 1]);
                }
            }
            assert(first_position(t, id) is None);
            let tt = t.push(id);
            if ids.contains(x) {
                let k = choose|k: int| 0 <= k < ids.len() && ids[k] == x;
                if k < p {
                    assert(tt[k] == x);
                } else if k > p {
                    assert(tt[k - 1] == x);
                } else {
                    assert(tt[t.len() as int] == x);
                }
            }
            if tt.contains(x) {
                let k = choose|k: int| 0 <= k < tt.len() && tt[k] == x;
                if k == t.len() {
                    assert(ids[p] == x);
                } else if k < p {
                    assert(ids[k] == x);
                } else {
                    assert(ids[k + 1] == x);
                }
            }
        },
        None => {
            let n = ids.len() as int;
            assert(t[n] == id);
            assert(first_position(t, id) == Some(n)) by {
                assert forall|k: int| 0 <= k < n implies t[k] != id by {
                    assert(t[k] == ids[k]);
                }
                lemma_first_position_is(t, id, n);
            }
            assert(t.remove(n) =~= ids);
        },
    }
}

proof fn lemma_first_position_is(ids: Seq<i64>, id: i64, p: int)
    requires
        0 <= p < ids.len(),
        ids[p] == id,
        forall|k: int| 0 <= k < p ==> ids[k] != id,
    ensures
        first_position(ids, id) == Some(p),
{
    lemma_first_position(ids, id);
    match first_position(ids, id) {
        Some(q) => {
            if q < p {
                assert(ids[q] != id);
            } else if q > p {
                assert(ids[p] != id);
            }
        },
        None => {
            assert(ids[p] != id);
        },
    }
}

impl ShowcaseConfig {
    /// Show the showcase `requested` by default (none for `None`).  It must
    /// exist, and its database must too; gives that database's key and path
    /// so it can be made the primary database.
    pub fn set_default_showcase(&mut self, requested: Option<&str>) -> (r: Result<
        Option<(String, String)>,
        ShowcaseFailure,
    >)
        requires
            old(self).wf(),
        ensures
            final(self).wf(),
            final(self).showcases@ == old(self).showcases@,
            final(self).databases@ == old(self).databases@,
            requested is None ==> r == Ok::<Option<(String, String)>, ShowcaseFailure>(None)
                && final(self).default_showcase is None,
            requested matches Some(key) ==> match key_index(old(self).showcases@, key@) {
                None => r == Err::<Option<(String, String)>, ShowcaseFailure>(
                    ShowcaseFailure::NotFound,
                ) && final(self).default_showcase == old(self).default_showcase,
                Some(i) => match key_index(
                    old(self).databases@,
                    old(self).showcases@[i].1.database_key@,
                ) {
                    None => r == Err::<Option<(String, String)>, ShowcaseFailure>(
                        ShowcaseFailure::BadRequest,
                    ) && final(self).default_showcase == old(self).default_showcase,
                    Some(d) => r matches Ok(Some(p)) && p.0@ == old(self).showcases@[i].1.database_key@
                        && p.1@ == old(self).databases@[d].1.db_path@ && crate::text::opt_view(
                        final(self).default_showcase,
                    ) == Some(key@),
                },
            },
    {
        match requested {
            None => {
                self.default_showcase = None;
                Ok(None)
            },
            Some(key) => {
                let i = match find_key(&self.showcases, key) {
                    None => return Err(ShowcaseFailure::NotFound),
                    Some(i) => i,
                };
                let d = match find_key(&self.databases, self.showcases[i].1.database_key.as_str()) {
                    None => return Err(ShowcaseFailure::BadRequest),
                    Some(d) => d,
                };
                let database_key = self.showcases[i].1.database_key.clone();
                let db_path = self.databases[d].1.db_path.clone();
                self.default_showcase = Some(String::from_str(key));
                Ok(Some((database_key, db_path)))
            },
        }
    }

    /// Show or hide a category in the showcase stored under `key`: hidden
    /// when it was shown, shown when it was hidden.  Gives whether it is now
    /// hidden; `None` when there is no such showcase.
    pub fn toggle_hidden_category(&mut self, key: &str, category_id: i64) -> (r: Option<bool>)
        requires
            old(self).wf(),
        ensures
            final(self).wf(),
            final(self).databases@ == old(self).databases@,
            final(self).default_showcase == old(self).default_showcase,
            final(self).showcases@.len() == old(self).showcases@.len(),
            r is None <==> key_index(old(self).showcases@, key@) is None,
            r is None ==> final(self).showcases@ == old(self).showcases@,
            r matches Some(hidden) ==> {
                let i = key_index(old(self).showcases@, key@)->Some_0;
                let e = old(self).showcases@[i].1;
                let e2 = final(self).showcases@[i].1;
                &&& hidden == (first_position(e.hidden_category_ids@, category_id) is None)
                &&& e2.hidden_category_ids@ == toggled(e.hidden_category_ids@, category_id)
                &&& e2.display_name@ == e.display_name@
                &&& e2.database_key@ == e.database_key@
                &&& e2.anonymize_names == e.anonymize_names
                &&& e2.showcase_market_ids@ == e.showcase_market_ids@
                &&& e2.non_anonymous_account_ids@ == e.non_anonymous_account_ids@
                &&& final(self).showcases@[i].0@ == key@
                &&& forall|k: int|
                    0 <= k < old(self).showcases@.len() && k != i ==> #[trigger] final(self).showcases@[k]
                        == old(self).showcases@[k]
            },
    {
        proof {
            lemma_key_index(self.showcases@, key@);
        }
        let i = match find_key(&self.showcases, key) {
            None => return None,
            Some(i) => i,
        };
        let ghost before = self.showcases@;
        let (k, mut e) = self.showcases.remove(i);
        let hidden = match position_of(&e.hidden_category_ids, category_id) {
            Some(p) => {
                e.hidden_category_ids.remove(p);
                false
            },
            None => {
                e.hidden_category_ids.push(category_id);
                true
            },
        };
        self.showcases.insert(i, (k, e));
        proof {
            assert forall|a: int| 0 <= a < before.len() && a != i implies #[trigger] self.showcases@[a]
                == before[a] by {}
            assert forall|a: int, b: int|
                0 <= a < b < self.showcases@.len() implies (#[trigger] self.showcases@[a]).0@
                != (#[trigger] self.showcases@[b]).0@ by {
                assert(self.showcases@[a].0@ == before[a].0@);
                assert(self.showcases@[b].0@ == before[b].0@);
            }
        }
        Some(hidden)
    }
}

impl ShowcaseConfig {
    /// Set the markets the showcase under `key` presents.
    /// `false` when there is no showcase under `key`.
    pub fn set_showcase_markets(&mut self, key: &str, market_ids: Vec<i64>) -> (found: bool)
        requires
            old(self).wf(),
        ensures
            final(self).wf(),
            final(self).databases@ == old(self).databases@,
            final(self).default_showcase == old(self).default_showcase,
            final(self).showcases@.len() == old(self).showcases@.len(),
            found == key_index(old(self).showcases@, key@) is Some,
            !found ==> final(self).showcases@ == old(self).showcases@,
            found ==> {
                let i = key_index(old(self).showcases@, key@)->Some_0;
                let e = old(self).showcases@[i].1;
                let e2 = final(self).showcases@[i].1;
                &&& e2.showcase_market_ids@ == market_ids@
                &&& e2.display_name@ == e.display_name@
                &&& e2.database_key@ == e.database_key@
                &&& e2.anonymize_names == e.anonymize_names
                &&& e2.hidden_category_ids@ == e.hidden_category_ids@
                &&& e2.non_anonymous_account_ids@ == e.non_anonymous_account_ids@
                &&& final(self).showcases@[i].0@ == key@
                &&& forall|k: int|
                    0 <= k < old(self).showcases@.len() && k != i ==> #[trigger] final(self).showcases@[k]
                        == old(self).showcases@[k]
            },
    {
        proof {
            lemma_key_index(self.showcases@, key@);
        }
        let i = match find_key(&self.showcases, key) {
            None => return false,
            Some(i) => i,
        };
        let ghost before = self.showcases@;
        let (k, mut e) = self.showcases.remove(i);
        e.showcase_market_ids = market_ids;
        self.showcases.insert(i, (k, e));
        proof {
            assert forall|a: int| 0 <= a < before.len() && a != i implies #[trigger] self.showcases@[a]
                == before[a] by {}
            assert forall|a: int, b: int|
                0 <= a < b < self.showcases@.len() implies (#[trigger] self.showcases@[a]).0@
                != (#[trigger] self.showcases@[b]).0@ by {
                assert(self.showcases@[a].0@ == before[a].0@);
                assert(self.showcases@[b].0@ == before[b].0@);
            }
        }
        true
    }

    /// Set whether the showcase under `key` hides account names.
    /// `false` when there is no showcase under `key`.
    pub fn set_showcase_anonymize(&mut self, key: &str, anonymize: bool) -> (found: bool)
        requires
            old(self).wf(),
        ensures
            final(self).wf(),
            final(self).databases@ == old(self).databases@,
            final(self).default_showcase == old(self).default_showcase,
            final(self).showcases@.len() == old(self).showcases@.len(),
            found == key_index(old(self).showcases@, key@) is Some,
            !found ==> final(self).showcases@ == old(self).showcases@,
            found ==> {
                let i = key_index(old(self).showcases@, key@)->Some_0;
                let e = old(self).showcases@[i].1;
                let e2 = final(self).showcases@[i].1;
                &&& e2.anonymize_names == anonymize
                &&& e2.display_name@ == e.display_name@
                &&& e2.database_key@ == e.database_key@
                &&& e2.showcase_market_ids@ == e.showcase_market_ids@
                &&& e2.hidden_category_ids@ == e.hidden_category_ids@
                &&& e2.non_anonymous_account_ids@ == e.non_anonymous_account_ids@
                &&& final(self).showcases@[i].0@ == key@
                &&& forall|k: int|
                    0 <= k < old(self).showcases@.len() && k != i ==> #[trigger] final(self).showcases@[k]
                        == old(self).showcases@[k]
            },
    {
        proof {
            lemma_key_index(self.showcases@, key@);
        }
        let i = match find_key(&self.showcases, key) {
            None => return false,
            Some(i) => i,
        };
        let ghost before = self.showcases@;
        let (k, mut e) = self.showcases.remove(i);
        e.anonymize_names = anonymize;
        self.showcases.insert(i, (k, e));
        proof {
            assert forall|a: int| 0 <= a < before.len() && a != i implies #[trigger] self.showcases@[a]
                == before[a] by {}
            assert forall|a: int, b: int|
                0 <= a < b < self.showcases@.len() implies (#[trigger] self.showcases@[a]).0@
                != (#[trigger] self.showcases@[b]).0@ by {
                assert(self.showcases@[a].0@ == before[a].0@);
                assert(self.showcases@[b].0@ == before[b].0@);
            }
        }
        true
    }

    /// Set the accounts whose names the showcase under `key` always shows.
    /// `false` when there is no showcase under `key`.
    pub fn set_showcase_non_anonymous_accounts(&mut self, key: &str, account_ids: Vec<i64>) -> (found: bool)
        requires
            old(self).wf(),
        ensures
            final(self).wf(),
            final(self).databases@ == old(self).databases@,
            final(self).default_showcase == old(self).default_showcase,
            final(self).showcases@.len() == old(self).showcases@.len(),
            found == key_index(old(self).showcases@, key@) is Some,
            !found ==> final(self).showcases@ == old(self).showcases@,
            found ==> {
                let i = key_index(old(self).showcases@, key@)->Some_0;
                let e = old(self).showcases@[i].1;
                let e2 = final(self).showcases@[i].1;
                &&& e2.non_anonymous_account_ids@ == account_ids@
                &&& e2.display_name@ == e.display_name@
                &&& e2.database_key@ == e.database_key@
                &&& e2.anonymize_names == e.anonymize_names
                &&& e2.showcase_market_ids@ == e.showcase_market_ids@
                &&& e2.hidden_category_ids@ == e.hidden_category_ids@
                &&& final(self).showcases@[i].0@ == key@
                &&& forall|k: int|
                    0 <= k < old(self).showcases@.len() && k != i ==> #[trigger] final(self).showcases@[k]
                        == old(self).showcases@[k]
            },
    {
        proof {
            lemma_key_index(self.showcases@, key@);
        }
        let i = match find_key(&self.showcases, key) {
            None => return false,
            Some(i) => i,
        };
        let ghost before = self.showcases@;
        let (k, mut e) = self.showcases.remove(i);
        e.non_anonymous_account_ids = account_ids;
        self.showcases.insert(i, (k, e));
        proof {
            assert forall|a: int| 0 <= a < before.len() && a != i implies #[trigger] self.showcases@[a]
                == before[a] by {}
            assert forall|a: int, b: int|
                0 <= a < b < self.showcases@.len() implies (#[trigger] self.showcases@[a]).0@
                != (#[trigger] self.showcases@[b]).0@ by {
                assert(self.showcases@[a].0@ == before[a].0@);
                assert(self.showcases@[b].0@ == before[b].0@);
            }
        }
        true
    }
}

impl ShowcaseConfig {
    /// What the public page lists: the default showcase (only when it
    /// exists) and each showcase's key and display name, in key order.
    pub fn public_showcases(&self) -> (r: (Option<String>, Vec<(String, String)>))
        requires
            self.wf(),
        ensures
            crate::text::opt_view(r.0) == match self.default_showcase {
                Some(d) => if key_index(self.showcases@, d@) is Some {
                    Some(d@)
                } else {
                    None
                },
                None => None,
            },
            crate::text::sorted_by_key(r.1@),
            r.1@.len() == self.showcases@.len(),
            forall|i: int|
                0 <= i < r.1@.len() ==> exists|j: int|
                    0 <= j < self.showcases@.len() && (#[trigger] r.1@[i]).0@ == self.showcases@[j].0@
                        && r.1@[i].1@ == self.showcases@[j].1.display_name@,
            forall|j: int|
                0 <= j < self.showcases@.len() ==> exists|i: int|
                    0 <= i < r.1@.len() && r.1@[i].0@ == (#[trigger] self.showcases@[j]).0@
                        && r.1@[i].1@ == self.showcases@[j].1.display_name@,
    {
        broadcast use vstd::seq_lib::group_to_multiset_ensures;

        let mut items: Vec<(String, String)> = Vec::new();
        let mut i: usize = 0;
        while i < self.showcases.len()
            invariant
                i <= self.showcases@.len(),
                items@.len() == i,
                forall|k: int|
                    0 <= k < i ==> (#[trigger] items@[k]).0@ == self.showcases@[k].0@ && items@[k].1@
                        == self.showcases@[k].1.display_name@,
            decreases self.showcases@.len() - i,
        {
            let key = self.showcases[i].0.clone();
            let name = self.showcases[i].1.display_name.clone();
            items.push((key, name));
            i = i + 1;
        }
        let ghost unsorted = items@;
        let sorted = crate::text::sort_by_key(items);
        proof {
            assert forall|a: int| 0 <= a < sorted@.len() implies exists|j: int|
                0 <= j < self.showcases@.len() && (#[trigger] sorted@[a]).0@ == self.showcases@[j].0@
                    && sorted@[a].1@ == self.showcases@[j].1.display_name@ by {
                assert(sorted@.to_multiset().count(sorted@[a]) > 0);
                assert(unsorted.to_multiset().count(sorted@[a]) > 0);
                assert(unsorted.contains(sorted@[a]));
                let j = choose|j: int| 0 <= j < unsorted.len() && unsorted[j] == sorted@[a];
                assert(unsorted[j].0@ == self.showcases@[j].0@);
            }
            assert forall|j: int| 0 <= j < self.showcases@.len() implies exists|a: int|
                0 <= a < sorted@.len() && sorted@[a].0@ == (#[trigger] self.showcases@[j]).0@
                    && sorted@[a].1@ == self.showcases@[j].1.display_name@ by {
                assert(unsorted.contains(unsorted[j]));
                assert(unsorted.to_multiset().count(unsorted[j]) > 0);
                assert(sorted@.to_multiset().count(unsorted[j]) > 0);
                assert(sorted@.contains(unsorted[j]));
                let a = choose|a: int| 0 <= a < sorted@.len() && sorted@[a] == unsorted[j];
                assert(sorted@[a].0@ == self.showcases@[j].0@);
            }
            assert(sorted@.len() == unsorted.len()) by {
                assert(sorted@.to_multiset().len() == unsorted.to_multiset().len());
            }
        }
        let default = match &self.default_showcase {
            Some(d) => match find_key(&self.showcases, d.as_str()) {
                Some(_) => Some(d.clone()),
                None => None,
            },
            None => None,
        };
        (default, sorted)
    }
}

/// After a showcase is stored under a key, looking that key up gives it
/// back, and every other key gives what it gave before.
pub proof fn lemma_showcase_read_after_write(
    before: Seq<(String, ShowcaseEntry)>,
    after: Seq<(String, ShowcaseEntry)>,
    key: String,
    entry: ShowcaseEntry,
    other: Seq<char>,
)
    requires
        keys_distinct(before),
        match key_index(before, key@) {
            Some(i) => after == before.update(i, (key, entry)),
            None => after == before.push((key, entry)),
        },
    ensures
        key_index(after, key@) is Some,
        after[key_index(after, key@)->Some_0].1 == entry,
        other != key@ ==> (key_index(after, other) is Some <==> key_index(before, other) is Some),
        other != key@ && key_index(before, other) is Some ==> after[key_index(after, other)->Some_0]
            == before[key_index(before, other)->Some_0],
{
    lemma_key_index(before, key@);
    lemma_key_index(after, key@);
    lemma_key_index(before, other);
    lemma_key_index(after, other);
    match key_index(before, key@) {
        Some(i) => {
            assert(after[i].0@ == key@);
            if let Some(j) = key_index(after, key@) {
                if j < i {
                    assert(after[j] == before[j]);
                }
            }
            if let Some(j) = key_index(after, other) {
                if j != i {
                    assert(after[j] == before[j]);
                }
            }
            if let Some(j) = key_index(before, other) {
                if j != i {
                    assert(after[j] == before[j]);
                }
                if let Some(j2) = key_index(after, other) {
                    if j2 < j {
                        assert(after[j2] == before[j2] || j2 == i);
                    }
                }
            }
        },
        None => {
            assert(after[before.len() as int].0@ == key@);
            if let Some(j) = key_index(after, key@) {
                if j < before.len() {
                    assert(after[j] == before[j]);
                }
            }
            if let Some(j) = key_index(after, other) {
                if j < before.len() {
                    assert(after[j] == before[j]);
                }
            }
            if let Some(j) = key_index(before, other) {
                assert(after[j] == before[j]);
            }
        },
    }
}

/// Two optional strings hold the same text.
pub open spec fn opt_view_eq(a: Option<String>, b: Option<String>) -> bool {
    crate::text::opt_view(a) == crate::text::opt_view(b)
}

/// A database and a showcase entry are what a legacy bootcamp becomes.
pub open spec fn legacy_entry_matches(
    legacy: (String, LegacyBootcampConfig),
    db: (String, DatabaseConfig),
    showcase: (String, ShowcaseEntry),
) -> bool {
    let (key, b) = legacy;
    &&& db.0@ == key@
    &&& db.1.db_path@ == b.db_path@
    &&& db.1.display_name@ == b.display_name@
    &&& showcase.0@ == key@
    &&& showcase.1.display_name@ == b.display_name@
    &&& showcase.1.database_key@ == key@
    &&& showcase.1.anonymize_names == b.anonymize_names
    &&& showcase.1.showcase_market_ids@ == b.showcase_market_ids@
    &&& showcase.1.hidden_category_ids@ == b.hidden_category_ids@
    &&& showcase.1.non_anonymous_account_ids@ == b.non_anonymous_account_ids@
    &&& showcase.1.password is None
}

/// A showcase or database key, once trimmed and lowercased: kept when it is
/// not empty and made only of lowercase ASCII letters, digits, `_` and `-`.
pub open spec fn spec_checked_key(lowered: Seq<char>) -> Option<Seq<char>> {
    if lowered.len() > 0 && is_key_text(lowered) {
        Some(lowered)
    } else {
        None
    }
}

/// Keep a trimmed, lowercased key when it is a valid key.
pub fn check_normalized_key(lowered: String) -> (r: Option<String>)
    ensures
        crate::text::opt_view(r) == spec_checked_key(lowered@),
{
    if lowered.unicode_len() == 0 {
        return None;
    }
    if !key_text(lowered.as_str()) {
        return None;
    }
    Some(lowered)
}

/// Normalize a requested key: trimmed and lowercased, then kept when it is
/// not empty and made only of lowercase ASCII letters, digits, `_` and `-`.
pub fn normalize_key(raw: &str) -> (r: Option<String>)
    ensures
        crate::text::opt_view(r) == spec_checked_key(unicode_lowercase(trimmed(raw@))),
{
    let t = trim(raw);
    let lowered = to_lowercase(t.as_str());
    check_normalized_key(lowered)
}

/// Keys that name pages of the site and cannot name a showcase.
pub open spec fn reserved_key(key: Seq<char>) -> bool {
    ||| key == "signin"@
    ||| key == "login"@
    ||| key == "showcase"@
    ||| key == "market"@
    ||| key == "accounts"@
    ||| key == "transfers"@
    ||| key == "auction"@
    ||| key == "options"@
    ||| key == "docs"@
    ||| key == "home"@
    ||| key == "api"@
}

/// Whether `key` names a page of the site and cannot name a showcase.
pub fn is_reserved_showcase_key(key: &str) -> (r: bool)
    ensures
        r == reserved_key(key@),
{
    str_eq(key, "signin") || str_eq(key, "login") || str_eq(key, "showcase") || str_eq(
        key,
        "market",
    ) || str_eq(key, "accounts") || str_eq(key, "transfers") || str_eq(key, "auction") || str_eq(
        key,
        "options",
    ) || str_eq(key, "docs") || str_eq(key, "home") || str_eq(key, "api")
}

} // verus!
