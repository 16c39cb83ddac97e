//! The data model of the registry: dynamically typed configuration values
//! and the configuration store with fail-fast typed accessors.

use vstd::prelude::*;

verus! {

use crate::assoc::{as_map, keys_distinct, lemma_as_map_dom, lemma_as_map_get,
    lemma_as_map_push, lemma_as_map_remove};
use crate::errors::Error;

/// The mathematical shape of one element of a configuration array.
pub enum SettingElem {
    Null,
    Bool(bool),
    Int(i64),
    Str(Seq<char>),
    Structured(Seq<char>),
}

/// The mathematical shape of one configuration value.
pub enum SettingVal {
    Null,
    Bool(bool),
    Int(i64),
    Str(Seq<char>),
    Arr(Seq<SettingElem>),
    Structured(Seq<char>),
}

/// One element of a configuration array: a scalar, or an arbitrary
/// structured value kept as its textual form.
pub enum ConfElem {
    Null,
    Bool(bool),
    Int(i64),
    Str(String),
    Structured(String),
}

impl View for ConfElem {
    type V = SettingElem;

    open spec fn view(&self) -> SettingElem {
        match self {
            ConfElem::Null => SettingElem::Null,
            ConfElem::Bool(b) => SettingElem::Bool(*b),
            ConfElem::Int(n) => SettingElem::Int(*n),
            ConfElem::Str(s) => SettingElem::Str(s@),
            ConfElem::Structured(s) => SettingElem::Structured(s@),
        }
    }
}

impl ConfElem {
    /// A value-semantic copy: the copy denotes the same element.
    pub fn duplicate(&self) -> (r: ConfElem)
        ensures
            r@ == self@,
    {
        match self {
            ConfElem::Null => ConfElem::Null,
            ConfElem::Bool(b) => ConfElem::Bool(*b),
            ConfElem::Int(n) => ConfElem::Int(*n),
            ConfElem::Str(s) => ConfElem::Str(s.clone()),
            ConfElem::Structured(s) => ConfElem::Structured(s.clone()),
        }
    }
}

/// One dynamically typed configuration value: a string, a boolean, a
/// 64-bit integer, an ordered array of elements, or an arbitrary
/// structured value kept as its textual form. `Null` marks an explicit
/// absence.
pub enum ConfValue {
    Null,
    Bool(bool),
    Int(i64),
    Str(String),
    Arr(Vec<ConfElem>),
    Structured(String),
}

impl View for ConfValue {
    type V = SettingVal;

    open spec fn view(&self) -> SettingVal {
        match self {
            ConfValue::Null => SettingVal::Null,
            ConfValue::Bool(b) => SettingVal::Bool(*b),
            ConfValue::Int(n) => SettingVal::Int(*n),
            ConfValue::Str(s) => SettingVal::Str(s@),
            ConfValue::Arr(items) => SettingVal::Arr(
                Seq::new(items@.len(), |i: int| items@[i]@),
            ),
            ConfValue::Structured(s) => SettingVal::Structured(s@),
        }
    }
}

impl ConfValue {
    /// A value-semantic copy: the copy denotes the same setting value.
    pub fn duplicate(&self) -> (r: ConfValue)
        ensures
            r@ == self@,
    {
        match self {
            ConfValue::Null => ConfValue::Null,
            ConfValue::Bool(b) => ConfValue::Bool(*b),
            ConfValue::Int(n) => ConfValue::Int(*n),
            ConfValue::Str(s) => ConfValue::Str(s.clone()),
            ConfValue::Arr(items) => {
                let mut out: Vec<ConfElem> = Vec::new();
                let mut i: usize = 0;
                while i < items.len()
                    invariant
                        0 <= i <= items@.len(),
                        out@.len() == i,
                        forall|j: int| 0 <= j < i ==> (#[trigger] out@[j])@ == items@[j]@,
                    decreases items@.len() - i,
                {
                    out.push(items[i].duplicate());
                    i += 1;
                }
                proof {
                    assert(Seq::new(out@.len(), |i: int| out@[i]@) =~= Seq::new(
                        items@.len(),
                        |i: int| items@[i]@,
                    ));
                }
                ConfValue::Arr(out)
            },
            ConfValue::Structured(s) => ConfValue::Structured(s.clone()),
        }
    }
}

/// A store of configuration settings: a map from string key to a
/// dynamically typed value. Immutable once snapshotted for a query; the
/// registry hands out value-semantic copies, never aliases.
pub struct ConfStorage {
    pairs: Vec<(String, ConfValue)>,
}

impl View for ConfStorage {
    type V = Map<Seq<char>, SettingVal>;

    closed spec fn view(&self) -> Map<Seq<char>, SettingVal> {
        as_map(self.pairs@)
    }
}

impl ConfStorage {
    #[verifier::type_invariant]
    spec fn wf(self) -> bool {
        keys_distinct(self.pairs@)
    }

    /// An empty store.
    pub fn new() -> (r: ConfStorage)
        ensures
            r@ == Map::<Seq<char>, SettingVal>::empty(),
    {
        let r = ConfStorage { pairs: Vec::new() };
        proof {
            assert(r@ =~= Map::<Seq<char>, SettingVal>::empty());
        }
        r
    }

    /// The index of the pair holding `k`, if any.
    fn position(&self, k: &str) -> (r: Option<usize>)
        ensures
            match r {
                Some(i) => i < self.pairs@.len() && self.pairs@[i as int].0@ == k@,
                None => forall|j: int|
                    0 <= j < self.pairs@.len() ==> (#[trigger] self.pairs@[j]).0@ != k@,
            },
    {
        let mut i: usize = 0;
        while i < self.pairs.len()
            invariant
                0 <= i <= self.pairs@.len(),
                forall|j: int| 0 <= j < i ==> (#[trigger] self.pairs@[j]).0@ != k@,
            decreases self.pairs@.len() - i,
        {
            if crate::text::str_eq(self.pairs[i].0.as_str(), k) {
                return Some(i);
            }
            i += 1;
        }
        None
    }

    /// The stored value under `k`, if any; a borrowed handle, used by the
    /// optional-setting path.
    pub fn get<'a>(&'a self, k: &str) -> (r: Option<&'a ConfValue>)
        ensures
            r is Some <==> self@.dom().contains(k@),
            r is Some ==> (*r->0)@ == self@[k@],
    {
        proof {
            use_type_invariant(self);
            lemma_as_map_dom(self.pairs@);
        }
        match self.position(k) {
            Some(i) => {
                proof {
                    lemma_as_map_get(self.pairs@, i as int);
                }
                Some(&self.pairs[i].1)
            },
            None => None,
        }
    }

    /// Stores `v` under `k`, replacing any earlier value of the key.
    pub fn insert(&mut self, k: String, v: ConfValue)
        ensures
            final(self)@ == old(self)@.insert(k@, v@),
    {
        proof {
            use_type_invariant(&*self);
        }
        let ghost pairs0 = self.pairs@;
        let pos = self.position(k.as_str());
        let mut pairs: Vec<(String, ConfValue)> = Vec::new();
        core::mem::swap(&mut pairs, &mut self.pairs);
        match pos {
            Some(i) => {
                proof {
                    lemma_as_map_remove(pairs0, i as int);
                }
                pairs.remove(i);
                proof {
                    lemma_as_map_push(pairs@, (k, v));
                    assert(as_map(pairs0).remove(k@).insert(k@, v@) =~= as_map(pairs0).insert(
                        k@,
                        v@,
                    ));
                }
                pairs.push((k, v));
            },
            None => {
                proof {
                    lemma_as_map_push(pairs@, (k, v));
                }
                pairs.push((k, v));
            },
        }
        self.pairs = pairs;
    }

    /// The keys currently stored, in insertion order, each exactly once.
    pub fn keys(&self) -> (r: Vec<String>)
        ensures
            forall|i: int| 0 <= i < r@.len() ==> self@.dom().contains((#[trigger] r@[i])@),
            forall|k: Seq<char>|
                self@.dom().contains(k) ==> exists|i: int| 0 <= i < r@.len() && (#[trigger] r@[i])@ == k,
            forall|i: int, j: int| 0 <= i < j < r@.len() ==> (#[trigger] r@[i])@ != (#[trigger] r@[j])@,
    {
        proof {
            use_type_invariant(self);
            lemma_as_map_dom(self.pairs@);
        }
        let mut out: Vec<String> = Vec::new();
        let mut i: usize = 0;
        while i < self.pairs.len()
            invariant
                0 <= i <= self.pairs@.len(),
                out@.len() == i,
                forall|j: int| 0 <= j < i ==> (#[trigger] out@[j])@ == self.pairs@[j].0@,
            decreases self.pairs@.len() - i,
        {
            out.push(self.pairs[i].0.clone());
            i += 1;
        }
        proof {
            use_type_invariant(self);
            assert forall|k: Seq<char>| self@.dom().contains(k) implies exists|i: int|
                0 <= i < out@.len() && (#[trigger] out@[i])@ == k by {
                let j = choose|j: int| 0 <= j < self.pairs@.len() && (#[trigger] self.pairs@[j]).0@ == k;
                assert((out@[j])@ == k);
            }
            assert forall|i: int| 0 <= i < out@.len() implies self@.dom().contains(
                (#[trigger] out@[i])@,
            ) by {
                assert((self.pairs@[i]).0@ == out@[i]@);
            }
        }
        out
    }

    /// A value-semantic copy of the whole store.
    pub fn duplicate(&self) -> (r: ConfStorage)
        ensures
            r@ == self@,
    {
        proof {
            use_type_invariant(self);
        }
        let mut pairs: Vec<(String, ConfValue)> = Vec::new();
        let mut i: usize = 0;
        while i < self.pairs.len()
            invariant
                0 <= i <= self.pairs@.len(),
                pairs@.len() == i,
                forall|j: int|
                    0 <= j < i ==> (#[trigger] pairs@[j]).0@ == self.pairs@[j].0@ && pairs@[j].1@
                        == self.pairs@[j].1@,
                keys_distinct(self.pairs@),
            decreases self.pairs@.len() - i,
        {
            let k = self.pairs[i].0.clone();
            let v = self.pairs[i].1.duplicate();
            proof {
                assert(forall|j: int|
                    0 <= j < i ==> (#[trigger] pairs@[j]).0@ != self.pairs@[i as int].0@);
            }
            pairs.push((k, v));
            i += 1;
        }
        let r = ConfStorage { pairs };
        proof {
            assert(keys_distinct(r.pairs@));
            lemma_as_map_views_equal(r.pairs@, self.pairs@);
        }
        r
    }
}

/// Pairwise view-equal association lists denote the same map.
proof fn lemma_as_map_views_equal<T: View>(a: Seq<(String, T)>, b: Seq<(String, T)>)
    requires
        a.len() == b.len(),
        forall|j: int|
            0 <= j < a.len() ==> (#[trigger] a[j]).0@ == b[j].0@ && a[j].1@ == b[j].1@,
    ensures
        as_map(a) == as_map(b),
    decreases a.len(),
{
    if a.len() > 0 {
        assert(forall|j: int|
            0 <= j < a.len() - 1 ==> a.drop_last()[j] == a[j] && b.drop_last()[j] == b[j]);
        lemma_as_map_views_equal(a.drop_last(), b.drop_last());
        assert(as_map(a) =~= as_map(b));
    } else {
        assert(as_map(a) =~= as_map(b));
    }
}

} // verus!

verus! {

/// Whether every element of an array is a string.
pub open spec fn all_str(a: Seq<SettingElem>) -> bool {
    forall|i: int| 0 <= i < a.len() ==> (#[trigger] a[i]) is Str
}

/// The characters of each element of an all-string array.
pub open spec fn strs_of(a: Seq<SettingElem>) -> Seq<Seq<char>> {
    Seq::new(a.len(), |i: int| a[i]->Str_0)
}

/// A typed, fail-fast view onto a configuration store: one accessor per
/// supported type, each failing with `InvalidSettingKey` on an absent key
/// and `SettingTypeMismatch` on a value of another type.
pub trait Config<T> {
    /// What the accessor returns for key `k` on this store.
    spec fn get_post(&self, k: Seq<char>, r: Result<T, Error>) -> bool;

    /// The value under `k` coerced to the requested type, or the error
    /// that names the offending key.
    fn get_or_err(&self, k: &str) -> (r: Result<T, Error>)
        ensures
            self.get_post(k@, r),
    ;
}

impl Config<ConfValue> for ConfStorage {
    /// The untyped accessor returns a copy of whatever is stored.
    open spec fn get_post(&self, k: Seq<char>, r: Result<ConfValue, Error>) -> bool {
        match r {
            Ok(v) => self@.dom().contains(k) && v@ == self@[k],
            Err(e) => !self@.dom().contains(k) && (e matches Error::InvalidSettingKey(m)
                && m@ == k),
        }
    }

    fn get_or_err(&self, k: &str) -> (r: Result<ConfValue, Error>) {
        match self.get(k) {
            Some(v) => Ok(v.duplicate()),
            None => Err(Error::InvalidSettingKey(k.to_owned())),
        }
    }
}

impl Config<String> for ConfStorage {
    /// The string accessor succeeds exactly on stored strings.
    open spec fn get_post(&self, k: Seq<char>, r: Result<String, Error>) -> bool {
        match r {
            Ok(s) => self@.dom().contains(k) && self@[k] == SettingVal::Str(s@),
            Err(e) => match e {
                Error::InvalidSettingKey(m) => !self@.dom().contains(k) && m@ == k,
                Error::SettingTypeMismatch(m) => self@.dom().contains(k) && !(self@[k] is Str)
                    && m@ == k,
                _ => false,
            },
        }
    }

    fn get_or_err(&self, k: &str) -> (r: Result<String, Error>) {
        match self.get(k) {
            Some(v) => match v {
                ConfValue::Str(s) => Ok(s.clone()),
                _ => Err(Error::SettingTypeMismatch(k.to_owned())),
            },
            None => Err(Error::InvalidSettingKey(k.to_owned())),
        }
    }
}

impl Config<bool> for ConfStorage {
    /// The boolean accessor succeeds exactly on stored booleans.
    open spec fn get_post(&self, k: Seq<char>, r: Result<bool, Error>) -> bool {
        match r {
            Ok(b) => self@.dom().contains(k) && self@[k] == SettingVal::Bool(b),
            Err(e) => match e {
                Error::InvalidSettingKey(m) => !self@.dom().contains(k) && m@ == k,
                Error::SettingTypeMismatch(m) => self@.dom().contains(k) && !(self@[k] is Bool)
                    && m@ == k,
                _ => false,
            },
        }
    }

    fn get_or_err(&self, k: &str) -> (r: Result<bool, Error>) {
        match self.get(k) {
            Some(v) => match v {
                ConfValue::Bool(b) => Ok(*b),
                _ => Err(Error::SettingTypeMismatch(k.to_owned())),
            },
            None => Err(Error::InvalidSettingKey(k.to_owned())),
        }
    }
}

impl Config<Vec<String>> for ConfStorage {
    /// The string-sequence accessor succeeds exactly on stored arrays
    /// whose every element is a string; a heterogeneous array fails the
    /// whole call, naming the offending key.
    open spec fn get_post(&self, k: Seq<char>, r: Result<Vec<String>, Error>) -> bool {
        match r {
            Ok(v) => self@.dom().contains(k) && (self@[k] matches SettingVal::Arr(a)
                && all_str(a) && v@.map_values(|s: String| s@) == strs_of(a)),
            Err(e) => match e {
                Error::InvalidSettingKey(m) => !self@.dom().contains(k) && m@ == k,
                Error::SettingTypeMismatch(m) => self@.dom().contains(k) && match self@[k] {
                    SettingVal::Arr(a) => !all_str(a) && m@ == "Multi-type array detected: "@
                        + k,
                    _ => m@ == k,
                },
                _ => false,
            },
        }
    }

    fn get_or_err(&self, k: &str) -> (r: Result<Vec<String>, Error>) {
        let v = match self.get(k) {
            Some(v) => v,
            None => {
                return Err(Error::InvalidSettingKey(k.to_owned()));
            },
        };
        match v {
            ConfValue::Arr(items) => {
                let ghost a = v@->Arr_0;
                let mut out: Vec<String> = Vec::new();
                let mut i: usize = 0;
                while i < items.len()
                    invariant
                        0 <= i <= items@.len(),
                        out@.len() == i,
                        self@.dom().contains(k@),
                        self@[k@] == SettingVal::Arr(a),
                        a == Seq::new(items@.len(), |j: int| items@[j]@),
                        forall|j: int| 0 <= j < i ==> a[j] is Str,
                        forall|j: int| 0 <= j < i ==> (#[trigger] out@[j])@ == a[j]->Str_0,
                    decreases items@.len() - i,
                {
                    match &items[i] {
                        ConfElem::Str(s) => {
                            out.push(s.clone());
                        },
                        _ => {
                            let mut m = String::new();
                            proof {
                                reveal_strlit("Multi-type array detected: ");
                            }
                            m.append("Multi-type array detected: ");
                            m.append(k);
                            proof {
                                assert(!(a[i as int] is Str));
                                assert(!all_str(a));
                                assert(m@ =~= "Multi-type array detected: "@ + k@);
                            }
                            return Err(Error::SettingTypeMismatch(m));
                        },
                    }
                    i += 1;
                }
                proof {
                    assert(all_str(a));
                    assert(out@.map_values(|s: String| s@) =~= strs_of(a));
                }
                Ok(out)
            },
            _ => Err(Error::SettingTypeMismatch(k.to_owned())),
        }
    }
}

} // verus!

verus! {

use crate::addr::ServerAddr;

/// One player reported by a probed server.
#[derive(Debug)]
pub struct PlayerRecord {
    pub name: String,
    pub score: Option<i64>,
    pub ping: Option<i64>,
    pub time: Option<String>,
}

/// One discovered server. The network address is the sole identity:
/// two records with the same address are the same server, whatever their
/// other fields hold.
#[derive(Debug)]
pub struct ServerEntry {
    pub addr: ServerAddr,
    pub protocol: Option<String>,
    pub name: Option<String>,
    pub hostname: Option<String>,
    pub map: Option<String>,
    pub num_players: Option<i64>,
    pub max_players: Option<i64>,
    pub num_spectators: Option<i64>,
    pub max_spectators: Option<i64>,
    pub ping: Option<i64>,
    pub rules: Vec<(String, String)>,
    pub players: Vec<PlayerRecord>,
}

impl ServerEntry {
    /// A fresh record for `addr` with no optional data yet.
    pub fn new(addr: ServerAddr) -> (r: ServerEntry)
        ensures
            r.addr == addr,
            r.protocol is None,
            r.name is None,
            r.hostname is None,
            r.map is None,
            r.num_players is None,
            r.max_players is None,
            r.num_spectators is None,
            r.max_spectators is None,
            r.ping is None,
            r.rules@.len() == 0,
            r.players@.len() == 0,
    {
        ServerEntry {
            addr,
            protocol: None,
            name: None,
            hostname: None,
            map: None,
            num_players: None,
            max_players: None,
            num_spectators: None,
            max_spectators: None,
            ping: None,
            rules: Vec::new(),
            players: Vec::new(),
        }
    }
}

impl PartialEq for ServerEntry {
    /// Records compare by network address alone.
    fn eq(&self, other: &Self) -> (r: bool) {
        self.addr == other.addr
    }
}

impl vstd::std_specs::cmp::PartialEqSpecImpl for ServerEntry {
    open spec fn obeys_eq_spec() -> bool {
        true
    }

    open spec fn eq_spec(&self, other: &Self) -> bool {
        self.addr == other.addr
    }
}

impl Eq for ServerEntry {}

/// The finite map denoted by a record list, keyed by network address; a
/// later record with the same address overrides an earlier one.
pub open spec fn rec_map(items: Seq<ServerEntry>) -> Map<ServerAddr, ServerEntry>
    decreases items.len(),
{
    if items.len() == 0 {
        Map::empty()
    } else {
        rec_map(items.drop_last()).insert(items.last().addr, items.last())
    }
}

/// Whether the addresses of a record list are pairwise distinct.
pub open spec fn addrs_distinct(items: Seq<ServerEntry>) -> bool {
    forall|i: int, j: int|
        0 <= i < j < items.len() ==> (#[trigger] items[i]).addr != (#[trigger] items[j]).addr
}

/// An address is in the denoted map exactly when some record carries it.
pub proof fn lemma_rec_map_dom(items: Seq<ServerEntry>)
    ensures
        forall|a: ServerAddr|
            #[trigger] rec_map(items).dom().contains(a) <==> (exists|i: int|
                0 <= i < items.len() && (#[trigger] items[i]).addr == a),
    decreases items.len(),
{
    if items.len() > 0 {
        let dl = items.drop_last();
        lemma_rec_map_dom(dl);
        assert forall|a: ServerAddr|
            #[trigger] rec_map(items).dom().contains(a) <==> (exists|i: int|
                0 <= i < items.len() && (#[trigger] items[i]).addr == a) by {
            if rec_map(items).dom().contains(a) {
                if a == items.last().addr {
                    assert((items[items.len() - 1]).addr == a);
                } else {
                    assert(rec_map(dl).dom().contains(a));
                    let i = choose|i: int| 0 <= i < dl.len() && (#[trigger] dl[i]).addr == a;
                    assert(dl[i] == items[i]);
                    assert((items[i]).addr == a);
                }
            }
            if exists|i: int| 0 <= i < items.len() && (#[trigger] items[i]).addr == a {
                let i = choose|i: int| 0 <= i < items.len() && (#[trigger] items[i]).addr == a;
                if i == items.len() - 1 {
                    assert(rec_map(items).dom().contains(a));
                } else {
                    assert(dl[i] == items[i]);
                    assert(rec_map(dl).dom().contains(a));
                }
            }
        }
    }
}

/// Under distinct addresses, the denoted map sends each record's address
/// to the record.
pub proof fn lemma_rec_map_get(items: Seq<ServerEntry>, i: int)
    requires
        addrs_distinct(items),
        0 <= i < items.len(),
    ensures
        rec_map(items).dom().contains(items[i].addr),
        rec_map(items)[items[i].addr] == items[i],
    decreases items.len(),
{
    let dl = items.drop_last();
    if i == items.len() - 1 {
    } else {
        assert(addrs_distinct(dl)) by {
            assert(forall|a: int, b: int|
                0 <= a < b < dl.len() ==> dl[a] == items[a] && dl[b] == items[b]);
        }
        assert(dl[i] == items[i]);
        lemma_rec_map_get(dl, i);
        assert(items[i].addr != items.last().addr);
    }
}

/// Removing the record at `i` removes exactly its address from the map.
pub proof fn lemma_rec_map_remove(items: Seq<ServerEntry>, i: int)
    requires
        addrs_distinct(items),
        0 <= i < items.len(),
    ensures
        rec_map(items.remove(i)) == rec_map(items).remove(items[i].addr),
        addrs_distinct(items.remove(i)),
        forall|j: int|
            0 <= j < items.remove(i).len() ==> (#[trigger] items.remove(i)[j]).addr
                != items[i].addr,
    decreases items.len(),
{
    let r = items.remove(i);
    let a = items[i].addr;
    assert(addrs_distinct(r) && forall|j: int| 0 <= j < r.len() ==> (#[trigger] r[j]).addr != a)
        by {
        assert(forall|j: int|
            0 <= j < r.len() ==> r[j] == (if j < i {
                items[j]
            } else {
                items[j + 1]
            }));
    }
    if i == items.len() - 1 {
        assert(r =~= items.drop_last());
        lemma_rec_map_dom(items.drop_last());
        assert(!rec_map(items.drop_last()).dom().contains(a)) by {
            if rec_map(items.drop_last()).dom().contains(a) {
                let j = choose|j: int|
                    0 <= j < items.drop_last().len() && (#[trigger] items.drop_last()[j]).addr
                        == a;
                assert(items.drop_last()[j] == items[j]);
            }
        }
        assert(rec_map(r) =~= rec_map(items).remove(a));
    } else {
        let dl = items.drop_last();
        assert(addrs_distinct(dl)) by {
            assert(forall|x: int, y: int|
                0 <= x < y < dl.len() ==> dl[x] == items[x] && dl[y] == items[y]);
        }
        assert(dl[i] == items[i]);
        lemma_rec_map_remove(dl, i);
        assert(r.drop_last() =~= dl.remove(i));
        assert(r.last() == items.last());
        assert(rec_map(r) == rec_map(dl.remove(i)).insert(items.last().addr, items.last()));
        assert(items.last().addr != a);
        assert(rec_map(r) =~= rec_map(items).remove(a));
    }
}

/// Appending a record inserts its address, and keeps the addresses
/// distinct when the address is fresh.
pub proof fn lemma_rec_map_push(items: Seq<ServerEntry>, p: ServerEntry)
    requires
        forall|j: int| 0 <= j < items.len() ==> (#[trigger] items[j]).addr != p.addr,
        addrs_distinct(items),
    ensures
        rec_map(items.push(p)) == rec_map(items).insert(p.addr, p),
        addrs_distinct(items.push(p)),
{
    let q = items.push(p);
    assert(q.drop_last() =~= items);
    assert(q.last() == p);
    assert(addrs_distinct(q)) by {
        assert(forall|j: int| 0 <= j < items.len() ==> q[j] == items[j]);
    }
}

/// A deduplicating collection of server records keyed by network address.
/// Inserting a record whose address is already present replaces the prior
/// record.
#[derive(Debug)]
pub struct ServerData {
    items: Vec<ServerEntry>,
}

impl View for ServerData {
    type V = Map<ServerAddr, ServerEntry>;

    closed spec fn view(&self) -> Map<ServerAddr, ServerEntry> {
        rec_map(self.items@)
    }
}

impl ServerData {
    #[verifier::type_invariant]
    spec fn wf(self) -> bool {
        addrs_distinct(self.items@)
    }

    /// An empty collection.
    pub fn new() -> (r: ServerData)
        ensures
            r@ == Map::<ServerAddr, ServerEntry>::empty(),
    {
        let r = ServerData { items: Vec::new() };
        proof {
            assert(r@ =~= Map::<ServerAddr, ServerEntry>::empty());
        }
        r
    }

    /// The index of the record holding `a`, if any.
    fn position(&self, a: ServerAddr) -> (r: Option<usize>)
        ensures
            match r {
                Some(i) => i < self.items@.len() && self.items@[i as int].addr == a,
                None => forall|j: int|
                    0 <= j < self.items@.len() ==> (#[trigger] self.items@[j]).addr != a,
            },
    {
        let mut i: usize = 0;
        while i < self.items.len()
            invariant
                0 <= i <= self.items@.len(),
                forall|j: int| 0 <= j < i ==> (#[trigger] self.items@[j]).addr != a,
            decreases self.items@.len() - i,
        {
            if self.items[i].addr == a {
                return Some(i);
            }
            i += 1;
        }
        None
    }

    /// Whether a record with address `a` is present.
    pub fn contains_addr(&self, a: ServerAddr) -> (r: bool)
        ensures
            r == self@.dom().contains(a),
    {
        proof {
            use_type_invariant(self);
            lemma_rec_map_dom(self.items@);
        }
        match self.position(a) {
            Some(i) => {
                proof {
                    lemma_rec_map_get(self.items@, i as int);
                }
                true
            },
            None => false,
        }
    }

    /// The record with address `a`, if any.
    pub fn get<'a>(&'a self, a: ServerAddr) -> (r: Option<&'a ServerEntry>)
        ensures
            r is Some <==> self@.dom().contains(a),
            r is Some ==> *r->0 == self@[a],
    {
        proof {
            use_type_invariant(self);
            lemma_rec_map_dom(self.items@);
        }
        match self.position(a) {
            Some(i) => {
                proof {
                    lemma_rec_map_get(self.items@, i as int);
                }
                Some(&self.items[i])
            },
            None => None,
        }
    }

    /// Adds `rec`; a record already stored under the same address is
    /// replaced — last write wins.
    pub fn insert(&mut self, rec: ServerEntry)
        ensures
            final(self)@ == old(self)@.insert(rec.addr, rec),
    {
        proof {
            use_type_invariant(&*self);
        }
        let ghost items0 = self.items@;
        let pos = self.position(rec.addr);
        let mut items: Vec<ServerEntry> = Vec::new();
        core::mem::swap(&mut items, &mut self.items);
        match pos {
            Some(i) => {
                proof {
                    lemma_rec_map_remove(items0, i as int);
                }
                items.remove(i);
                proof {
                    lemma_rec_map_push(items@, rec);
                    assert(rec_map(items0).remove(rec.addr).insert(rec.addr, rec)
                        =~= rec_map(items0).insert(rec.addr, rec));
                }
                items.push(rec);
            },
            None => {
                proof {
                    lemma_rec_map_push(items@, rec);
                }
                items.push(rec);
            },
        }
        self.items = items;
    }

    /// All current records: every record stands in the map under its
    /// address, every mapped address has its record here, and no two
    /// records share an address.
    pub fn records<'a>(&'a self) -> (r: &'a Vec<ServerEntry>)
        ensures
            forall|i: int|
                0 <= i < r@.len() ==> self@.contains_pair((#[trigger] r@[i]).addr, r@[i]),
            forall|a: ServerAddr|
                self@.dom().contains(a) ==> exists|i: int|
                    0 <= i < r@.len() && (#[trigger] r@[i]).addr == a,
            addrs_distinct(r@),
    {
        proof {
            use_type_invariant(self);
            lemma_rec_map_dom(self.items@);
            assert forall|i: int| 0 <= i < self.items@.len() implies self@.contains_pair(
                (#[trigger] self.items@[i]).addr,
                self.items@[i],
            ) by {
                lemma_rec_map_get(self.items@, i);
            }
        }
        &self.items
    }
}

impl ServerData {
    /// Whether every address here is also in `other`.
    fn addrs_subset(&self, other: &ServerData) -> (r: bool)
        ensures
            r == self@.dom().subset_of(other@.dom()),
    {
        let mut i: usize = 0;
        while i < self.items.len()
            invariant
                0 <= i <= self.items@.len(),
                forall|j: int|
                    0 <= j < i ==> other@.dom().contains((#[trigger] self.items@[j]).addr),
            decreases self.items@.len() - i,
        {
            if !other.contains_addr(self.items[i].addr) {
                proof {
                    use_type_invariant(self);
                    lemma_rec_map_get(self.items@, i as int);
                }
                return false;
            }
            i += 1;
        }
        proof {
            use_type_invariant(self);
            lemma_rec_map_dom(self.items@);
            assert forall|a: ServerAddr| self@.dom().contains(a) implies other@.dom().contains(
                a,
            ) by {
                let j = choose|j: int|
                    0 <= j < self.items@.len() && (#[trigger] self.items@[j]).addr == a;
            }
        }
        true
    }
}

impl PartialEq for ServerData {
    /// Collections compare as sets of addresses, since a record is
    /// identified by its address alone.
    fn eq(&self, other: &Self) -> (r: bool) {
        let r = self.addrs_subset(other) && other.addrs_subset(self);
        proof {
            if r {
                assert(self@.dom() =~= other@.dom());
            }
        }
        r
    }
}

impl vstd::std_specs::cmp::PartialEqSpecImpl for ServerData {
    open spec fn obeys_eq_spec() -> bool {
        true
    }

    open spec fn eq_spec(&self, other: &Self) -> bool {
        self@.dom() == other@.dom()
    }
}

impl Eq for ServerData {}

impl Default for ServerData {
    /// The default collection is empty.
    fn default() -> (r: ServerData)
        ensures
            r@ == Map::<ServerAddr, ServerEntry>::empty(),
    {
        ServerData::new()
    }
}

/// The capability every backend implements: given a configuration store,
/// produce the current set of servers or fail. The registry holds one
/// source per game entry and never inspects its concrete type.
pub trait DataSource {
    /// What this source promises of a finished query.
    spec fn query_post(
        &self,
        settings: Map<Seq<char>, SettingVal>,
        r: Result<ServerData, Error>,
    ) -> bool;

    /// Queries the source with the given settings.
    fn query(&self, settings: &ConfStorage) -> (r: Result<ServerData, Error>)
        ensures
            self.query_post(settings@, r),
    ;
}

/// A backend that immediately reports an empty server set: the default
/// placeholder for a freshly created game, and a test double.
pub struct MockDataSource;

impl DataSource for MockDataSource {
    /// The mock always succeeds with no servers.
    open spec fn query_post(
        &self,
        settings: Map<Seq<char>, SettingVal>,
        r: Result<ServerData, Error>,
    ) -> bool {
        match r {
            Ok(d) => d@ == Map::<ServerAddr, ServerEntry>::empty(),
            Err(_) => false,
        }
    }

    fn query(&self, settings: &ConfStorage) -> (r: Result<ServerData, Error>) {
        Ok(ServerData::new())
    }
}

} // verus!

verus! {

/// Which of the shipped backends a game entry is assigned. Verified code
/// dispatches on this closed set; the probing backend's blocking work runs
/// outside the library between `refresh_begin` and `refresh_commit`.
#[derive(Clone, Copy, Debug, PartialEq, Eq, Structural)]
pub enum SourceKind {
    /// The placeholder backend yielding an empty server set.
    Mock,
    /// The external-probe backend.
    QStat,
}

} // verus!

verus! {

/// Last write wins by address: inserting `b` into a collection that holds
/// `a` under the same network address leaves exactly `b` stored under
/// that address, and adds no address.
pub proof fn lemma_insert_last_write_wins(
    m: Map<crate::addr::ServerAddr, ServerEntry>,
    a: ServerEntry,
    b: ServerEntry,
)
    requires
        a.addr == b.addr,
        m.dom().contains(a.addr),
        m[a.addr] == a,
    ensures
        m.insert(b.addr, b)[a.addr] == b,
        m.insert(b.addr, b).dom() == m.dom(),
{
    assert(m.insert(b.addr, b).dom() =~= m.dom());
}

/// No two distinct records of a collection share a network address: what
/// `ServerData::records` hands out is pairwise distinct by address, and
/// the collection maps each address to a record carrying it.
pub proof fn lemma_addr_uniqueness(items: Seq<ServerEntry>, i: int, j: int)
    requires
        addrs_distinct(items),
        0 <= i < items.len(),
        0 <= j < items.len(),
        i != j,
    ensures
        items[i].addr != items[j].addr,
{
}

} // verus!
