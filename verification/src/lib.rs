//! A registry of game servers discovered per game by pluggable query
//! backends.
//!
//! The library owns per-game state (status, last-known server set, typed
//! settings), a deduplicating server collection keyed solely by network
//! address, a dynamically typed configuration store with fail-fast
//! accessors, and the compute side of the reference probing backend.
//! Blocking work — spawning the probe subprocess, background execution —
//! lives outside the library; the registry exposes the refresh cycle as a
//! snapshot step and a commit step so a caller can run the query between
//! the two without holding any registry state.

use vstd::prelude::*;

pub mod errors;

verus! {

use crate::errors::Error;

/// An opaque game identifier.
pub type GameID = String;

/// The query status of one game entry.
///
/// `Empty` and `Ready`/`Error` are rest states; `Working` is transient and
/// resolves to `Ready` or `Error` when the in-flight query completes.
#[derive(Clone, Copy, Debug, PartialEq, Eq, Structural)]
pub enum QueryStatus {
    Empty,
    Working,
    Ready,
    Error,
}

impl Default for QueryStatus {
    /// A freshly created entry has never been queried.
    fn default() -> (r: QueryStatus)
        ensures
            r == QueryStatus::Empty,
    {
        QueryStatus::Empty
    }
}

/// The namespace a configuration store belongs to.
#[derive(Clone, Copy, Debug, PartialEq, Eq, Hash, Structural)]
pub enum ConfType {
    Launcher,
    Backend,
    System,
}

impl ConfType {
    /// Reads a configuration-type tag from its lower-case text form.
    pub fn from_string(s: &str) -> (r: Result<ConfType, &'static str>)
        ensures
            s@ == "launcher"@ ==> r == Ok::<ConfType, &'static str>(ConfType::Launcher),
            s@ == "backend"@ ==> r == Ok::<ConfType, &'static str>(ConfType::Backend),
            s@ == "system"@ ==> r == Ok::<ConfType, &'static str>(ConfType::System),
            s@ != "launcher"@ && s@ != "backend"@ && s@ != "system"@ ==> r is Err,
    {
        proof {
            reveal_strlit("launcher");
            reveal_strlit("backend");
            reveal_strlit("system");
            assert("launcher"@.len() == 8);
            assert("backend"@.len() == 7);
            assert("system"@.len() == 6);
        }
        if crate::text::str_eq(s, "launcher") {
            Ok(ConfType::Launcher)
        } else if crate::text::str_eq(s, "backend") {
            Ok(ConfType::Backend)
        } else if crate::text::str_eq(s, "system") {
            Ok(ConfType::System)
        } else {
            Err("Invalid type string")
        }
    }

    /// The lower-case text form of the tag.
    pub fn to_string(&self) -> (r: &str)
        ensures
            *self == ConfType::Launcher ==> r@ == "launcher"@,
            *self == ConfType::Backend ==> r@ == "backend"@,
            *self == ConfType::System ==> r@ == "system"@,
    {
        match self {
            ConfType::Launcher => "launcher",
            ConfType::Backend => "backend",
            ConfType::System => "system",
        }
    }
}


/// The per-type settings of one game entry; each store is materialized
/// lazily on first access.
pub struct Settings {
    pub launcher: Option<crate::models::ConfStorage>,
    pub backend: Option<crate::models::ConfStorage>,
    pub system: Option<crate::models::ConfStorage>,
}

/// The mathematical shape of a game entry's settings.
#[verifier::ext_equal]
pub struct SettingsView {
    pub launcher: Option<Map<Seq<char>, crate::models::SettingVal>>,
    pub backend: Option<Map<Seq<char>, crate::models::SettingVal>>,
    pub system: Option<Map<Seq<char>, crate::models::SettingVal>>,
}

impl View for Settings {
    type V = SettingsView;

    open spec fn view(&self) -> SettingsView {
        SettingsView {
            launcher: match self.launcher {
                Some(ref s) => Some(s@),
                None => None,
            },
            backend: match self.backend {
                Some(ref s) => Some(s@),
                None => None,
            },
            system: match self.system {
                Some(ref s) => Some(s@),
                None => None,
            },
        }
    }
}

/// The slot of the given configuration type.
pub open spec fn slot_view(sv: SettingsView, t: ConfType) -> Option<
    Map<Seq<char>, crate::models::SettingVal>,
> {
    match t {
        ConfType::Launcher => sv.launcher,
        ConfType::Backend => sv.backend,
        ConfType::System => sv.system,
    }
}

/// The settings with the slot of the given type replaced.
pub open spec fn with_slot(
    sv: SettingsView,
    t: ConfType,
    m: Map<Seq<char>, crate::models::SettingVal>,
) -> SettingsView {
    match t {
        ConfType::Launcher => SettingsView { launcher: Some(m), ..sv },
        ConfType::Backend => SettingsView { backend: Some(m), ..sv },
        ConfType::System => SettingsView { system: Some(m), ..sv },
    }
}

impl Settings {
    /// No store materialized yet for any configuration type.
    pub fn new() -> (r: Settings)
        ensures
            r@ == (SettingsView { launcher: None, backend: None, system: None }),
    {
        Settings { launcher: None, backend: None, system: None }
    }

    /// The store of the given type, if it was materialized.
    pub fn slot(&self, t: ConfType) -> (r: &Option<crate::models::ConfStorage>)
        ensures
            match r {
                Some(s) => slot_view(self@, t) == Some(s@),
                None => (slot_view(self@, t) is None),
            },
    {
        match t {
            ConfType::Launcher => &self.launcher,
            ConfType::Backend => &self.backend,
            ConfType::System => &self.system,
        }
    }

    /// Replaces the store of the given type.
    pub fn set_slot(&mut self, t: ConfType, s: crate::models::ConfStorage)
        ensures
            final(self)@ == with_slot(old(self)@, t, s@),
    {
        match t {
            ConfType::Launcher => {
                self.launcher = Some(s);
            },
            ConfType::Backend => {
                self.backend = Some(s);
            },
            ConfType::System => {
                self.system = Some(s);
            },
        }
    }
}

/// The per-game mutable state the registry owns: query status, assigned
/// data source, last-known server set, and per-type settings.
pub struct GameEntry {
    pub status: QueryStatus,
    pub data_source: crate::models::SourceKind,
    pub servers: crate::models::ServerData,
    pub settings: Settings,
}

/// The mathematical shape of a game entry.
#[verifier::ext_equal]
pub struct GameEntryView {
    pub status: QueryStatus,
    pub data_source: crate::models::SourceKind,
    pub servers: Map<crate::addr::ServerAddr, crate::models::ServerEntry>,
    pub settings: SettingsView,
}

impl View for GameEntry {
    type V = GameEntryView;

    open spec fn view(&self) -> GameEntryView {
        GameEntryView {
            status: self.status,
            data_source: self.data_source,
            servers: self.servers@,
            settings: self.settings@,
        }
    }
}

/// The entry a game starts from: never queried, mock backend, no servers,
/// no settings.
pub open spec fn default_entry_view() -> GameEntryView {
    GameEntryView {
        status: QueryStatus::Empty,
        data_source: crate::models::SourceKind::Mock,
        servers: Map::empty(),
        settings: SettingsView { launcher: None, backend: None, system: None },
    }
}

impl Default for GameEntry {
    /// A freshly created game entry.
    fn default() -> (r: GameEntry)
        ensures
            r@ == default_entry_view(),
    {
        let r = GameEntry {
            status: QueryStatus::Empty,
            data_source: crate::models::SourceKind::Mock,
            servers: crate::models::ServerData::new(),
            settings: Settings::new(),
        };
        proof {
            assert(r@ =~= default_entry_view());
        }
        r
    }
}

} // verus!

pub mod addr;
pub mod backends;
pub mod assoc;
pub mod json;
pub mod models;
pub mod text;

verus! {

use crate::assoc::{as_map, keys_distinct, lemma_as_map_dom, lemma_as_map_get,
    lemma_as_map_push, lemma_as_map_remove};
use crate::models::{ConfStorage, DataSource, ServerData, SettingVal, SourceKind};

/// The entry after a refresh began: status `Working`, the backend-type
/// settings store materialized.
pub open spec fn begun_entry_view(e: GameEntryView) -> GameEntryView {
    GameEntryView {
        status: QueryStatus::Working,
        settings: with_slot(e.settings, ConfType::Backend, backend_snapshot(e)),
        ..e
    }
}

/// The backend-type settings a refresh snapshots: the materialized store,
/// or an empty one.
pub open spec fn backend_snapshot(e: GameEntryView) -> Map<Seq<char>, SettingVal> {
    match slot_view(e.settings, ConfType::Backend) {
        Some(m) => m,
        None => Map::empty(),
    }
}

/// The entry after a refresh committed: `Ready` with the new server set on
/// success, `Error` with the previous server set kept on failure.
pub open spec fn committed_entry_view(
    e: GameEntryView,
    outcome: Result<ServerData, Error>,
) -> GameEntryView {
    match outcome {
        Ok(d) => GameEntryView { status: QueryStatus::Ready, servers: d@, ..e },
        Err(_) => GameEntryView { status: QueryStatus::Error, ..e },
    }
}

/// The first position of a sorted identifier list at which `key` may be
/// inserted: everything earlier comes strictly before it.
fn find_pos(out: &Vec<GameID>, key: &str) -> (pos: usize)
    ensures
        0 <= pos <= out@.len(),
        forall|p: int| 0 <= p < pos ==> !crate::text::lex_le(key@, (#[trigger] out@[p])@),
        pos < out@.len() ==> crate::text::lex_le(key@, out@[pos as int]@),
{
    let mut pos: usize = 0;
    while pos < out.len()
        invariant
            0 <= pos <= out@.len(),
            forall|p: int| 0 <= p < pos ==> !crate::text::lex_le(key@, (#[trigger] out@[p])@),
        decreases out@.len() - pos,
    {
        if crate::text::str_le(key, out[pos].as_str()) {
            return pos;
        }
        pos += 1;
    }
    pos
}

/// Inserts a fresh identifier into a sorted list of distinct
/// identifiers, keeping it sorted; the result holds exactly the old
/// identifiers and the new one.
#[verifier::rlimit(30)]
fn sorted_insert(out: &mut Vec<GameID>, key: GameID)
    requires
        forall|p1: int, p2: int|
            0 <= p1 <= p2 < old(out)@.len() ==> crate::text::lex_le(
                (#[trigger] old(out)@[p1])@,
                (#[trigger] old(out)@[p2])@,
            ),
        forall|p1: int, p2: int|
            0 <= p1 < p2 < old(out)@.len() ==> (#[trigger] old(out)@[p1])@ != (
            #[trigger] old(out)@[p2])@,
        forall|p: int| 0 <= p < old(out)@.len() ==> (#[trigger] old(out)@[p])@ != key@,
    ensures
        final(out)@.len() == old(out)@.len() + 1,
        forall|p1: int, p2: int|
            0 <= p1 <= p2 < final(out)@.len() ==> crate::text::lex_le(
                (#[trigger] final(out)@[p1])@,
                (#[trigger] final(out)@[p2])@,
            ),
        forall|p1: int, p2: int|
            0 <= p1 < p2 < final(out)@.len() ==> (#[trigger] final(out)@[p1])@ != (
            #[trigger] final(out)@[p2])@,
        forall|p: int|
            0 <= p < final(out)@.len() ==> (#[trigger] final(out)@[p])@ == key@ || (exists|q: int|
                0 <= q < old(out)@.len() && (#[trigger] old(out)@[q])@ == final(out)@[p]@),
        forall|q: int|
            0 <= q < old(out)@.len() ==> exists|p: int|
                0 <= p < final(out)@.len() && (#[trigger] old(out)@[q])@ == final(out)@[p]@,
        exists|p: int| 0 <= p < final(out)@.len() && (#[trigger] final(out)@[p])@ == key@,
{
    let ghost before = out@;
    let ghost keyv = key@;
    let pos = find_pos(out, key.as_str());
    out.insert(pos, key);
    proof {
        before.insert_ensures(pos as int, key);
        assert(out@.len() == before.len() + 1);
        assert(forall|p: int| 0 <= p < pos ==> out@[p] == before[p]);
        assert(out@[pos as int]@ == keyv);
        assert(forall|p: int| pos < p < out@.len() ==> out@[p] == before[p - 1]);
        assert forall|p2: int| pos < p2 < out@.len() implies crate::text::lex_le(
            keyv,
            (#[trigger] out@[p2])@,
        ) by {
            if p2 - 1 > pos {
                crate::text::lemma_lex_le_trans(keyv, before[pos as int]@, before[p2 - 1]@);
            }
        }
        assert forall|p1: int| 0 <= p1 < pos implies crate::text::lex_le(
            (#[trigger] out@[p1])@,
            keyv,
        ) by {
            crate::text::lemma_lex_le_total(keyv, before[p1]@);
        }
        assert forall|p1: int, p2: int| 0 <= p1 <= p2 < out@.len() implies crate::text::lex_le(
            (#[trigger] out@[p1])@,
            (#[trigger] out@[p2])@,
        ) by {
            if p1 == p2 {
                crate::text::lemma_lex_le_total(out@[p1]@, out@[p1]@);
            } else if p1 < pos && p2 < pos {
            } else if p1 < pos && p2 == pos {
            } else if p1 == pos && p2 > pos {
            } else if p1 > pos && p2 > pos {
            } else if p1 < pos && p2 > pos {
                crate::text::lemma_lex_le_trans(before[p1]@, keyv, before[p2 - 1]@);
            }
        }
        assert forall|p1: int, p2: int| 0 <= p1 < p2 < out@.len() implies (#[trigger] out@[p1])@
            != (#[trigger] out@[p2])@ by {
            if p1 != pos && p2 != pos {
                let q1: int = if p1 < pos {
                    p1
                } else {
                    p1 - 1
                };
                let q2: int = if p2 < pos {
                    p2
                } else {
                    p2 - 1
                };
                assert(before[q1]@ != before[q2]@);
            }
        }
        assert forall|q: int| 0 <= q < before.len() implies exists|p: int|
            0 <= p < out@.len() && (#[trigger] before[q])@ == out@[p]@ by {
            if q < pos {
                assert(before[q]@ == out@[q]@);
            } else {
                assert(before[q]@ == out@[q + 1]@);
            }
        }
        assert(out@[pos as int]@ == keyv);
    }
}

/// The registry: a map from game identifier to game entry. It owns the
/// only mutation path into its entries; a caller that runs registry
/// operations from several threads wraps the table in a mutual-exclusion
/// lock and keeps every operation inside one critical section.
pub struct GameTable {
    slots: Vec<(String, GameEntry)>,
}

impl View for GameTable {
    type V = Map<Seq<char>, GameEntryView>;

    closed spec fn view(&self) -> Map<Seq<char>, GameEntryView> {
        as_map(self.slots@)
    }
}

impl GameTable {
    #[verifier::type_invariant]
    spec fn wf(self) -> bool {
        keys_distinct(self.slots@)
    }

    /// An empty registry.
    pub fn new() -> (r: GameTable)
        ensures
            r@ == Map::<Seq<char>, GameEntryView>::empty(),
    {
        let r = GameTable { slots: Vec::new() };
        proof {
            assert(r@ =~= Map::<Seq<char>, GameEntryView>::empty());
        }
        r
    }

    /// The index of the slot holding `id`, if any.
    fn position(&self, id: &str) -> (r: Option<usize>)
        ensures
            match r {
                Some(i) => i < self.slots@.len() && self.slots@[i as int].0@ == id@,
                None => forall|j: int|
                    0 <= j < self.slots@.len() ==> (#[trigger] self.slots@[j]).0@ != id@,
            },
    {
        let mut i: usize = 0;
        while i < self.slots.len()
            invariant
                0 <= i <= self.slots@.len(),
                forall|j: int| 0 <= j < i ==> (#[trigger] self.slots@[j]).0@ != id@,
            decreases self.slots@.len() - i,
        {
            if crate::text::str_eq(self.slots[i].0.as_str(), id) {
                return Some(i);
            }
            i += 1;
        }
        None
    }

    /// The identifiers of all tracked games, in lexicographic order by
    /// Unicode scalar value, each exactly once.
    pub fn list_games(&self) -> (r: Vec<GameID>)
        ensures
            forall|i: int| 0 <= i < r@.len() ==> self@.dom().contains((#[trigger] r@[i])@),
            forall|k: Seq<char>|
                self@.dom().contains(k) ==> exists|i: int|
                    0 <= i < r@.len() && (#[trigger] r@[i])@ == k,
            forall|i: int, j: int|
                0 <= i < j < r@.len() ==> (#[trigger] r@[i])@ != (#[trigger] r@[j])@,
            forall|i: int, j: int|
                0 <= i <= j < r@.len() ==> crate::text::lex_le(
                    (#[trigger] r@[i])@,
                    (#[trigger] r@[j])@,
                ),
    {
        proof {
            use_type_invariant(self);
            lemma_as_map_dom(self.slots@);
        }
        let mut out: Vec<GameID> = Vec::new();
        let mut i: usize = 0;
        while i < self.slots.len()
            invariant
                0 <= i <= self.slots@.len(),
                keys_distinct(self.slots@),
                out@.len() == i,
                forall|p: int|
                    0 <= p < out@.len() ==> exists|q: int|
                        0 <= q < i && (#[trigger] out@[p])@ == self.slots@[q].0@,
                forall|q: int|
                    0 <= q < i ==> exists|p: int|
                        0 <= p < out@.len() && (#[trigger] self.slots@[q]).0@ == out@[p]@,
                forall|p1: int, p2: int|
                    0 <= p1 < p2 < out@.len() ==> (#[trigger] out@[p1])@ != (#[trigger] out@[p2])@,
                forall|p1: int, p2: int|
                    0 <= p1 <= p2 < out@.len() ==> crate::text::lex_le(
                        (#[trigger] out@[p1])@,
                        (#[trigger] out@[p2])@,
                    ),
            decreases self.slots@.len() - i,
        {
            let key = self.slots[i].0.clone();
            proof {
                assert forall|p: int| 0 <= p < out@.len() implies (#[trigger] out@[p])@ != key@
                    by {
                    let q = choose|q: int| 0 <= q < i && (#[trigger] out@[p])@ == self.slots@[q].0@;
                    assert(self.slots@[q].0@ != self.slots@[i as int].0@);
                }
            }
            sorted_insert(&mut out, key);
            i += 1;
        }
        proof {
            assert forall|k: Seq<char>| self@.dom().contains(k) implies exists|p: int|
                0 <= p < out@.len() && (#[trigger] out@[p])@ == k by {
                let q = choose|q: int|
                    0 <= q < self.slots@.len() && (#[trigger] self.slots@[q]).0@ == k;
                let p = choose|p: int| 0 <= p < out@.len() && (#[trigger] self.slots@[q]).0@
                    == out@[p]@;
                assert((out@[p])@ == k);
            }
            assert forall|p: int| 0 <= p < out@.len() implies self@.dom().contains(
                (#[trigger] out@[p])@,
            ) by {
                let q = choose|q: int|
                    0 <= q < self.slots@.len() && (#[trigger] out@[p])@ == self.slots@[q].0@;
                assert(self@.dom().contains(self.slots@[q].0@));
            }
        }
        out
    }

    /// Creates a default entry for `id`; fails when the identifier is
    /// already tracked, leaving the registry unchanged.
    pub fn create_game_entry(&mut self, id: &GameID) -> (r: Result<(), Error>)
        ensures
            old(self)@.dom().contains(id@) ==> final(self)@ == old(self)@ && (r matches Err(e)
                && e matches Error::GameExists(m) && m@ == id@),
            !old(self)@.dom().contains(id@) ==> r is Ok && final(self)@ == old(self)@.insert(
                id@,
                default_entry_view(),
            ),
    {
        proof {
            use_type_invariant(&*self);
            lemma_as_map_dom(self.slots@);
        }
        match self.position(id.as_str()) {
            Some(_) => Err(Error::GameExists(id.clone())),
            None => {
                let mut slots: Vec<(String, GameEntry)> = Vec::new();
                core::mem::swap(&mut slots, &mut self.slots);
                let entry = GameEntry::default();
                let key = id.clone();
                proof {
                    lemma_as_map_push(slots@, (key, entry));
                }
                slots.push((key, entry));
                self.slots = slots;
            Ok(())
            },
        }
    }

    /// Deletes the entry of `id`; fails when the identifier is not
    /// tracked, leaving the registry unchanged.
    pub fn remove_game_entry(&mut self, id: &GameID) -> (r: Result<(), Error>)
        ensures
            !old(self)@.dom().contains(id@) ==> final(self)@ == old(self)@ && (r matches Err(e)
                && e matches Error::NoSuchGame(m) && m@ == id@),
            old(self)@.dom().contains(id@) ==> r is Ok && final(self)@ == old(self)@.remove(id@),
    {
        proof {
            use_type_invariant(&*self);
            lemma_as_map_dom(self.slots@);
        }
        match self.position(id.as_str()) {
            None => Err(Error::NoSuchGame(id.clone())),
            Some(i) => {
                proof {
                    lemma_as_map_remove(self.slots@, i as int);
                }
                let mut slots: Vec<(String, GameEntry)> = Vec::new();
                core::mem::swap(&mut slots, &mut self.slots);
                slots.remove(i);
                self.slots = slots;
                Ok(())
            },
        }
    }

    /// The settings store of `id` for the given configuration type: an
    /// empty store is materialized on first access, and a value-semantic
    /// copy of the stored one is returned. Fails with `NoSuchGame` when
    /// the identifier is not tracked, leaving the registry unchanged.
    pub fn get_settings(&mut self, id: &GameID, t: ConfType) -> (r: Result<ConfStorage, Error>)
        ensures
            !old(self)@.dom().contains(id@) ==> final(self)@ == old(self)@ && (r matches Err(e)
                && e matches Error::NoSuchGame(m) && m@ == id@),
            old(self)@.dom().contains(id@) ==> (r matches Ok(store) && {
                let e0 = old(self)@[id@];
                let m = match slot_view(e0.settings, t) {
                    Some(m) => m,
                    None => Map::empty(),
                };
                store@ == m && final(self)@ == old(self)@.insert(
                    id@,
                    GameEntryView { settings: with_slot(e0.settings, t, m), ..e0 },
                )
            }),
    {
        proof {
            use_type_invariant(&*self);
            lemma_as_map_dom(self.slots@);
        }
        let pos = self.position(id.as_str());
        match pos {
            None => Err(Error::NoSuchGame(id.clone())),
            Some(i) => {
                let ghost slots0 = self.slots@;
                proof {
                    lemma_as_map_get(slots0, i as int);
                    lemma_as_map_remove(slots0, i as int);
                }
                let mut slots: Vec<(String, GameEntry)> = Vec::new();
                core::mem::swap(&mut slots, &mut self.slots);
                let (key, mut entry) = slots.remove(i);
                let store = match entry.settings.slot(t) {
                    Some(st) => st.duplicate(),
                    None => ConfStorage::new(),
                };
                let stored = store.duplicate();
                entry.settings.set_slot(t, stored);
                proof {
                    lemma_as_map_push(slots@, (key, entry));
                }
                slots.push((key, entry));
                self.slots = slots;
                proof {
                    let e0 = as_map(slots0)[id@];
                    assert(entry@ =~= (GameEntryView {
                        settings: with_slot(e0.settings, t, store@),
                        ..e0
                    }));
                    assert(self@ =~= as_map(slots0).insert(id@, entry@));
                }
                Ok(store)
            },
        }
    }

    /// The snapshot half of a refresh: looks the entry up, materializes
    /// and copies its backend-type settings, marks it `Working`, and hands
    /// back the assigned source kind with the snapshot. The caller runs
    /// the query on the snapshot without touching the registry and then
    /// calls `refresh_commit`. Fails with `NoSuchGame` when the identifier
    /// is not tracked, leaving the registry unchanged.
    pub fn refresh_begin(&mut self, id: &GameID) -> (r: Result<(SourceKind, ConfStorage), Error>)
        ensures
            !old(self)@.dom().contains(id@) ==> final(self)@ == old(self)@ && (r matches Err(e)
                && e matches Error::NoSuchGame(m) && m@ == id@),
            old(self)@.dom().contains(id@) ==> (r matches Ok(p) && {
                let e0 = old(self)@[id@];
                p.0 == e0.data_source && p.1@ == backend_snapshot(e0)
                    && final(self)@ == old(self)@.insert(id@, begun_entry_view(e0))
            }),
    {
        proof {
            use_type_invariant(&*self);
            lemma_as_map_dom(self.slots@);
        }
        let pos = self.position(id.as_str());
        match pos {
            None => Err(Error::NoSuchGame(id.clone())),
            Some(i) => {
                let ghost slots0 = self.slots@;
                proof {
                    lemma_as_map_get(slots0, i as int);
                    lemma_as_map_remove(slots0, i as int);
                }
                let mut slots: Vec<(String, GameEntry)> = Vec::new();
                core::mem::swap(&mut slots, &mut self.slots);
                let (key, mut entry) = slots.remove(i);
                let store = match entry.settings.slot(ConfType::Backend) {
                    Some(st) => st.duplicate(),
                    None => ConfStorage::new(),
                };
                let stored = store.duplicate();
                entry.settings.set_slot(ConfType::Backend, stored);
                entry.status = QueryStatus::Working;
                let kind = entry.data_source;
                proof {
                    lemma_as_map_push(slots@, (key, entry));
                }
                slots.push((key, entry));
                self.slots = slots;
                proof {
                    let e0 = as_map(slots0)[id@];
                    assert(entry@ =~= begun_entry_view(e0));
                    assert(self@ =~= as_map(slots0).insert(id@, entry@));
                }
                Ok((kind, store))
            },
        }
    }

    /// The commit half of a refresh: writes the query outcome into the
    /// entry — `Ready` with the new server set on success, `Error` with
    /// the previous server set kept on failure. When the entry was removed
    /// while the query was in flight, the outcome is discarded and the
    /// registry stays unchanged; the result says whether a commit
    /// happened.
    pub fn refresh_commit(&mut self, id: &GameID, outcome: Result<ServerData, Error>) -> (r:
        bool)
        ensures
            !old(self)@.dom().contains(id@) ==> final(self)@ == old(self)@ && r == false,
            old(self)@.dom().contains(id@) ==> r == true && final(self)@ == old(self)@.insert(
                id@,
                committed_entry_view(old(self)@[id@], outcome),
            ),
    {
        proof {
            use_type_invariant(&*self);
            lemma_as_map_dom(self.slots@);
        }
        let pos = self.position(id.as_str());
        match pos {
            None => false,
            Some(i) => {
                let ghost slots0 = self.slots@;
                proof {
                    lemma_as_map_get(slots0, i as int);
                    lemma_as_map_remove(slots0, i as int);
                }
                let mut slots: Vec<(String, GameEntry)> = Vec::new();
                core::mem::swap(&mut slots, &mut self.slots);
                let (key, mut entry) = slots.remove(i);
                match outcome {
                    Ok(d) => {
                        entry.status = QueryStatus::Ready;
                        entry.servers = d;
                    },
                    Err(_) => {
                        entry.status = QueryStatus::Error;
                    },
                }
                proof {
                    lemma_as_map_push(slots@, (key, entry));
                }
                slots.push((key, entry));
                self.slots = slots;
                proof {
                    let e0 = as_map(slots0)[id@];
                    assert(entry@ =~= committed_entry_view(e0, outcome));
                    assert(self@ =~= as_map(slots0).insert(id@, entry@));
                }
                true
            },
        }
    }

    /// A whole refresh against a source that runs in-process: snapshot,
    /// query, commit. The entry ends `Ready` or `Error` — never `Working`
    /// — whatever the source returned. Fails with `NoSuchGame` when the
    /// identifier is not tracked, leaving the registry unchanged.
    pub fn refresh_sync<D: DataSource>(&mut self, id: &GameID, source: &D) -> (r: Result<
        (),
        Error,
    >)
        ensures
            !old(self)@.dom().contains(id@) ==> final(self)@ == old(self)@ && (r matches Err(e)
                && e matches Error::NoSuchGame(m) && m@ == id@),
            old(self)@.dom().contains(id@) ==> r is Ok && (exists|qr: Result<ServerData, Error>|
                #[trigger] source.query_post(backend_snapshot(old(self)@[id@]), qr)
                    && final(self)@ == old(self)@.insert(
                    id@,
                    committed_entry_view(begun_entry_view(old(self)@[id@]), qr),
                )),
    {
        let ghost m0 = self@;
        match self.refresh_begin(id) {
            Err(e) => Err(e),
            Ok((_kind, store)) => {
                let qr = source.query(&store);
                let ghost gqr = qr;
                let committed = self.refresh_commit(id, qr);
                proof {
                    let e0 = m0[id@];
                    assert(m0.insert(id@, begun_entry_view(e0)).dom().contains(id@));
                    assert(source.query_post(backend_snapshot(e0), gqr));
                    assert(self@ =~= m0.insert(
                        id@,
                        committed_entry_view(begun_entry_view(e0), gqr),
                    ));
                }
                Ok(())
            },
        }
    }
}

impl Default for GameTable {
    /// The default registry is empty.
    fn default() -> (r: GameTable)
        ensures
            r@ == Map::<Seq<char>, GameEntryView>::empty(),
    {
        GameTable::new()
    }
}

} // verus!

verus! {

use crate::models::ConfValue;

/// One configuration setting supplied by a game-list definition: its
/// default value (which fixes the type) and free-form metadata.
pub struct ConfigEntry {
    pub default: ConfValue,
    pub metadata: Vec<(String, ConfValue)>,
}

/// One game of a game-list definition: its display name and the settings
/// each backend wants, keyed by backend name.
pub struct GameListEntry {
    pub name: String,
    pub backends: Vec<(String, Vec<(String, ConfigEntry)>)>,
}

/// A parsed game-list definition: settings metadata per game identifier.
pub struct GameList(pub Vec<(GameID, GameListEntry)>);

/// The top-level handle around the registry. Loading game-list
/// definitions into defaults is an upstream collaborator's job; the core
/// only accepts the parsed structure.
pub struct Core {
    pub game_table: GameTable,
}

impl Core {
    /// A core with an empty registry.
    pub fn new() -> (r: Core)
        ensures
            r.game_table@ == Map::<Seq<char>, GameEntryView>::empty(),
    {
        Core { game_table: GameTable::new() }
    }

    /// Begins a server refresh for `id` by materializing and snapshotting
    /// its backend-type settings; an untracked identifier leaves the
    /// registry unchanged.
    pub fn refresh_servers(&mut self, id: GameID)
        ensures
            !old(self).game_table@.dom().contains(id@) ==> final(self).game_table@ == old(
                self,
            ).game_table@,
            old(self).game_table@.dom().contains(id@) ==> ({
                let e0 = old(self).game_table@[id@];
                final(self).game_table@ == old(self).game_table@.insert(
                    id@,
                    GameEntryView {
                        settings: with_slot(e0.settings, ConfType::Backend, backend_snapshot(e0)),
                        ..e0
                    },
                )
            }),
    {
        let _settings = self.game_table.get_settings(&id, ConfType::Backend);
    }

    /// Accepts a parsed game-list definition. Folding its defaults into
    /// the registry is not wired up yet; the call reports success and
    /// leaves the registry as it is.
    pub fn read_game_lists(&mut self, data: GameList) -> (r: Result<String, String>)
        ensures
            r matches Ok(s) && s@ == "Success."@,
            final(self).game_table@ == old(self).game_table@,
    {
        Ok("Success.".to_owned())
    }
}

} // verus!

verus! {

impl GameTable {
    /// The query status of `id`, when tracked.
    pub fn status_of(&self, id: &GameID) -> (r: Option<QueryStatus>)
        ensures
            r is Some <==> self@.dom().contains(id@),
            r matches Some(st) ==> st == self@[id@].status,
    {
        proof {
            use_type_invariant(self);
            lemma_as_map_dom(self.slots@);
        }
        match self.position(id.as_str()) {
            Some(i) => {
                proof {
                    lemma_as_map_get(self.slots@, i as int);
                }
                Some(self.slots[i].1.status)
            },
            None => None,
        }
    }

    /// The last-known server set of `id`, when tracked.
    pub fn servers_of<'a>(&'a self, id: &GameID) -> (r: Option<&'a ServerData>)
        ensures
            r is Some <==> self@.dom().contains(id@),
            r matches Some(d) ==> d@ == self@[id@].servers,
    {
        proof {
            use_type_invariant(self);
            lemma_as_map_dom(self.slots@);
        }
        match self.position(id.as_str()) {
            Some(i) => {
                proof {
                    lemma_as_map_get(self.slots@, i as int);
                }
                Some(&self.slots[i].1.servers)
            },
            None => None,
        }
    }

    /// Writes one setting of `id` under the given configuration type,
    /// materializing the store on first use. This is the only mutation
    /// path into a game's settings; what `get_settings` hands out are
    /// value-semantic copies. Fails with `NoSuchGame` when the identifier
    /// is not tracked, leaving the registry unchanged.
    pub fn set_setting(&mut self, id: &GameID, t: ConfType, key: String, value: ConfValue) -> (r:
        Result<(), Error>)
        ensures
            !old(self)@.dom().contains(id@) ==> final(self)@ == old(self)@ && (r matches Err(e)
                && e matches Error::NoSuchGame(m) && m@ == id@),
            old(self)@.dom().contains(id@) ==> r is Ok && ({
                let e0 = old(self)@[id@];
                let m = match slot_view(e0.settings, t) {
                    Some(m) => m,
                    None => Map::empty(),
                };
                final(self)@ == old(self)@.insert(
                    id@,
                    GameEntryView {
                        settings: with_slot(e0.settings, t, m.insert(key@, value@)),
                        ..e0
                    },
                )
            }),
    {
        proof {
            use_type_invariant(&*self);
            lemma_as_map_dom(self.slots@);
        }
        let pos = self.position(id.as_str());
        match pos {
            None => Err(Error::NoSuchGame(id.clone())),
            Some(i) => {
                let ghost slots0 = self.slots@;
                proof {
                    lemma_as_map_get(slots0, i as int);
                    lemma_as_map_remove(slots0, i as int);
                }
                let mut slots: Vec<(String, GameEntry)> = Vec::new();
                core::mem::swap(&mut slots, &mut self.slots);
                let (k, mut entry) = slots.remove(i);
                let mut store = match entry.settings.slot(t) {
                    Some(st) => st.duplicate(),
                    None => ConfStorage::new(),
                };
                store.insert(key, value);
                entry.settings.set_slot(t, store);
                proof {
                    lemma_as_map_push(slots@, (k, entry));
                }
                slots.push((k, entry));
                self.slots = slots;
                proof {
                    let e0 = as_map(slots0)[id@];
                    let m = match slot_view(e0.settings, t) {
                        Some(m) => m,
                        None => Map::<Seq<char>, SettingVal>::empty(),
                    };
                    assert(entry@ =~= (GameEntryView {
                        settings: with_slot(e0.settings, t, m.insert(key@, value@)),
                        ..e0
                    }));
                    assert(self@ =~= as_map(slots0).insert(id@, entry@));
                }
                Ok(())
            },
        }
    }
}

/// Materializing a settings store is idempotent: after one access the
/// entry holds exactly the store that was handed out, so a second access
/// of the same type hands out the same store and leaves the registry
/// unchanged.
pub proof fn lemma_get_settings_idempotent(
    m: Map<Seq<char>, GameEntryView>,
    id: Seq<char>,
    t: ConfType,
)
    requires
        m.dom().contains(id),
    ensures
        ({
            let e0 = m[id];
            let snap = match slot_view(e0.settings, t) {
                Some(s) => s,
                None => Map::empty(),
            };
            let m1 = m.insert(id, GameEntryView { settings: with_slot(e0.settings, t, snap), ..e0 });
            let e1 = m1[id];
            slot_view(e1.settings, t) == Some(snap) && m1.insert(
                id,
                GameEntryView { settings: with_slot(e1.settings, t, snap), ..e1 },
            ) == m1
        }),
{
    let e0 = m[id];
    let snap = match slot_view(e0.settings, t) {
        Some(s) => s,
        None => Map::<Seq<char>, crate::models::SettingVal>::empty(),
    };
    let m1 = m.insert(id, GameEntryView { settings: with_slot(e0.settings, t, snap), ..e0 });
    let e1 = m1[id];
    assert(with_slot(e1.settings, t, snap) =~= e1.settings);
    assert((GameEntryView { settings: with_slot(e1.settings, t, snap), ..e1 }) =~= e1);
    assert(m1.insert(id, e1) =~= m1);
}

} // verus!

verus! {

/// The refresh state machine resolves: a begun refresh stands at
/// `Working`, and its commit stands at `Ready` with the new server set on
/// success, or at `Error` with the previous server set untouched on any
/// backend failure — never at `Working`.
pub proof fn lemma_refresh_resolves(e: GameEntryView, outcome: Result<ServerData, Error>)
    ensures
        begun_entry_view(e).status == QueryStatus::Working,
        committed_entry_view(begun_entry_view(e), outcome).status == (match outcome {
            Ok(_) => QueryStatus::Ready,
            Err(_) => QueryStatus::Error,
        }),
        committed_entry_view(begun_entry_view(e), outcome).servers == (match outcome {
            Ok(d) => d@,
            Err(_) => e.servers,
        }),
{
}

} // verus!
