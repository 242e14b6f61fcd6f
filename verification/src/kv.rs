//! A small store of numbers under numbers that keeps a log of what was
//! asked of it.

use crate::text::{
    braced, decimal, joined, parse_map, read_map, stores, write_map, write_number, write_word,
    CLOSE_BRACE, COLON, COMMA, OPEN_BRACE,
};
use crate::text_laws::lemma_saved_is_loaded;
use std::collections::HashMap;
use vstd::prelude::*;
use vstd::std_specs::iter::IteratorSpec;
use vstd::string::StringSliceAdditionalSpecFns;

verus! {

/// What can be asked of a store.
#[derive(Clone, Copy, PartialEq, Eq, Structural)]
pub enum Action {
    Read { key: u32 },
    Write { key: u32, value: u32 },
    Delete { key: u32 },
}

/// What was under `key`.
pub open spec fn lookup(map: Map<u32, u32>, key: u32) -> Option<u32> {
    if map.contains_key(key) {
        Some(map[key])
    } else {
        None
    }
}

impl Action {
    /// The key that the action is about.
    pub open spec fn key(self) -> u32 {
        match self {
            Action::Read { key } => key,
            Action::Write { key, .. } => key,
            Action::Delete { key } => key,
        }
    }

    /// The action as the log shows it: `Read(7)`, `Write(7,9)`, `Delete(7)`.
    pub open spec fn text(self) -> Seq<u8> {
        match self {
            Action::Read { key } => "Read(".spec_bytes() + decimal(key as nat) + ")".spec_bytes(),
            Action::Write { key, value } => "Write(".spec_bytes() + decimal(key as nat)
                + ",".spec_bytes() + decimal(value as nat) + ")".spec_bytes(),
            Action::Delete { key } => "Delete(".spec_bytes() + decimal(key as nat)
                + ")".spec_bytes(),
        }
    }

    /// Appends the action as the log shows it.
    pub fn write_to(&self, out: &mut Vec<u8>)
        ensures
            final(out)@ == old(out)@ + self.text(),
    {
        match *self {
            Action::Read { key } => {
                write_word(out, "Read(");
                write_number(out, key);
            },
            Action::Write { key, value } => {
                write_word(out, "Write(");
                write_number(out, key);
                write_word(out, ",");
                write_number(out, value);
            },
            Action::Delete { key } => {
                write_word(out, "Delete(");
                write_number(out, key);
            },
        }
        write_word(out, ")");
    }

    /// The map after the action.
    pub open spec fn apply(self, map: Map<u32, u32>) -> Map<u32, u32> {
        match self {
            Action::Read { .. } => map,
            Action::Write { key, value } => map.insert(key, value),
            Action::Delete { key } => map.remove(key),
        }
    }
}

/// What an action found, as the log shows it: `None`, `Some(9)`.
pub open spec fn result_text(result: Option<u32>) -> Seq<u8> {
    match result {
        None => "None".spec_bytes(),
        Some(value) => "Some(".spec_bytes() + decimal(value as nat) + ")".spec_bytes(),
    }
}

/// A line of the log: the action, a colon, what it found.
pub open spec fn note_text(note: (Action, Option<u32>)) -> Seq<u8> {
    note.0.text() + seq![COLON] + result_text(note.1)
}

/// The log as it is stored.
pub open spec fn log_text(log: Seq<(Action, Option<u32>)>) -> Seq<u8> {
    braced(joined(log.map_values(|note: (Action, Option<u32>)| note_text(note))))
}

/// Appends what an action found, as the log shows it.
pub fn write_result(out: &mut Vec<u8>, result: Option<u32>)
    ensures
        final(out)@ == old(out)@ + result_text(result),
{
    match result {
        None => {
            write_word(out, "None");
        },
        Some(value) => {
            write_word(out, "Some(");
            write_number(out, value);
            write_word(out, ")");
        },
    }
}

/// Writes a log as it is stored.
pub fn write_log(log: &Vec<(Action, Option<u32>)>) -> (text: Vec<u8>)
    ensures
        text@ == log_text(log@),
{
    let ghost parts = log@.map_values(|note: (Action, Option<u32>)| note_text(note));
    let mut text: Vec<u8> = Vec::new();
    text.push(OPEN_BRACE);
    let mut i: usize = 0;
    while i < log.len()
        invariant
            i <= log@.len(),
            parts == log@.map_values(|note: (Action, Option<u32>)| note_text(note)),
            text@ == seq![OPEN_BRACE] + joined(parts.take(i as int)),
        decreases log@.len() - i,
    {
        if i > 0 {
            text.push(COMMA);
        }
        let (action, result) = log[i];
        action.write_to(&mut text);
        text.push(COLON);
        write_result(&mut text, result);
        proof {
            let longer = parts.take(i + 1);
            assert(longer.drop_last() =~= parts.take(i as int));
        }
        i = i + 1;
    }
    text.push(CLOSE_BRACE);
    assert(parts.take(log@.len() as int) =~= parts);
    text
}

/// The two texts that a store is kept as.
pub struct Saved {
    /// The map, for the file at the store's path.
    pub data: Vec<u8>,
    /// The log, for the file at the store's log path.
    pub log: Vec<u8>,
}

/// What a store holds.
pub struct StoreState {
    pub map: Map<u32, u32>,
    pub log: Seq<(Action, Option<u32>)>,
    pub path: Seq<char>,
    pub log_path: Seq<char>,
}

/// A store: a map, the log of what was asked of it, and where the two are
/// kept.
pub struct KV {
    log: Vec<(Action, Option<u32>)>,
    path: String,
    log_path: String,
    map: HashMap<u32, u32>,
}

impl View for KV {
    type V = StoreState;

    closed spec fn view(&self) -> StoreState {
        StoreState { map: self.map@, log: self.log@, path: self.path@, log_path: self.log_path@ }
    }
}

impl KV {
    /// An empty store with an empty log.
    pub fn new(path: &str, log_path: &str) -> (store: Self)
        ensures
            store@ == (StoreState {
                map: Map::empty(),
                log: Seq::empty(),
                path: path@,
                log_path: log_path@,
            }),
    {
        KV {
            log: Vec::<(Action, Option<u32>)>::new(),
            path: path.to_owned(),
            map: HashMap::new(),
            log_path: log_path.to_owned(),
        }
    }

    /// Does what `action` asks, and notes it in the log together with what
    /// was under the key before.
    pub fn act(&mut self, action: Action) -> (result: Option<u32>)
        ensures
            result == lookup(old(self)@.map, action.key()),
            final(self)@ == (StoreState {
                map: action.apply(old(self)@.map),
                log: old(self)@.log.push((action, result)),
                ..old(self)@
            }),
    {
        match action {
            Action::Read { key } => {
                let res: Option<u32> = match self.map.get(&key) {
                    Some(value) => Some(*value),
                    None => None,
                };
                self.log.push((action, res));
                res
            },
            Action::Write { key, value } => {
                let res: Option<u32> = self.map.insert(key, value);
                self.log.push((action, res));
                res
            },
            Action::Delete { key } => {
                let res: Option<u32> = self.map.remove(&key);
                self.log.push((action, res));
                res
            },
        }
    }

    /// Replaces the map by the one that `data` stands for. The log stays.
    pub fn load(&mut self, data: &str)
        ensures
            final(self)@ == (StoreState { map: parse_map(data.spec_bytes()), ..old(self)@ }),
    {
        self.map = read_map(data.as_bytes());
    }

    /// The map and the log as they are stored. The entries of the map
    /// stand in the order in which the map hands them out.
    pub fn save(&self) -> (saved: Saved)
        ensures
            stores(saved.data@, self@.map),
            parse_map(saved.data@) == self@.map,
            saved.log@ == log_text(self@.log),
    {
        let entries: Vec<(u32, u32)> = self.entries();
        let data: Vec<u8> = write_map(&entries);
        let log: Vec<u8> = write_log(&self.log);
        proof {
            lemma_saved_is_loaded(data@, self.map@);
        }
        Saved { data, log }
    }

    /// Where the map is kept.
    pub fn path(&self) -> (path: &str)
        ensures
            path@ == self@.path,
    {
        self.path.as_str()
    }

    /// Where the log is kept.
    pub fn log_path(&self) -> (path: &str)
        ensures
            path@ == self@.log_path,
    {
        self.log_path.as_str()
    }

    /// The log: each action with what it found, oldest first.
    pub fn log(&self) -> (log: &[(Action, Option<u32>)])
        ensures
            log@ == self@.log,
    {
        self.log.as_slice()
    }

    /// The entries of the map, each once, in the order in which the map
    /// hands them out.
    pub fn entries(&self) -> (entries: Vec<(u32, u32)>)
        ensures
            entries@.no_duplicates(),
            entries@.to_set() == self@.map.kv_pairs(),
    {
        let mut entries: Vec<(u32, u32)> = Vec::new();
        let ghost all = self.map.iter().remaining().unref();
        for pair in it: self.map.iter()
            invariant
                it.seq().unref() == all,
                entries@ == all.take(it.index()),
                all.to_set() == self.map@.kv_pairs(),
                it.seq().no_duplicates(),
        {
            let (key, value) = pair;
            entries.push((*key, *value));
        }
        assert(all.take(all.len() as int) =~= all);
        entries
    }
}

} // verus!
