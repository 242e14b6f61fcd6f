//! The database: a store under the name by which the rest of a node
//! knows it.

use crate::kv::{log_text, lookup, Saved, StoreState, KV};
use crate::text::{parse_map, stores};
use vstd::prelude::*;
use vstd::string::StringSliceAdditionalSpecFns;

pub use crate::kv::Action;

verus! {

/// A database: a store of its own.
pub struct DB {
    store: KV,
}

impl View for DB {
    type V = StoreState;

    closed spec fn view(&self) -> StoreState {
        self.store@
    }
}

impl DB {
    /// An empty database with an empty log.
    pub fn new(path: &str, log_path: &str) -> (db: Self)
        ensures
            db@ == (StoreState {
                map: Map::empty(),
                log: Seq::empty(),
                path: path@,
                log_path: log_path@,
            }),
    {
        DB { store: KV::new(path, log_path) }
    }

    /// Does what `action` asks, and notes it in the log together with what
    /// was under the key before.
    pub fn act(&mut self, action: Action) -> (result: Option<u32>)
        ensures
            result == lookup(old(self)@.map, action.key()),
            final(self)@ == (StoreState {
                map: action.apply(old(self)@.map),
                log: old(self)@.log.push((action, result)),
                ..old(self)@
            }),
    {
        self.store.act(action)
    }

    /// Replaces the map by the one that `data` stands for. The log stays.
    pub fn load(&mut self, data: &str)
        ensures
            final(self)@ == (StoreState { map: parse_map(data.spec_bytes()), ..old(self)@ }),
    {
        self.store.load(data)
    }

    /// The map and the log as they are stored.
    pub fn save(&self) -> (saved: Saved)
        ensures
            stores(saved.data@, self@.map),
            parse_map(saved.data@) == self@.map,
            saved.log@ == log_text(self@.log),
    {
        self.store.save()
    }

    /// Where the map is kept.
    pub fn path(&self) -> (path: &str)
        ensures
            path@ == self@.path,
    {
        self.store.path()
    }

    /// Where the log is kept.
    pub fn log_path(&self) -> (path: &str)
        ensures
            path@ == self@.log_path,
    {
        self.store.log_path()
    }
}

} // verus!
