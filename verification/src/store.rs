//! The store actor's state and its per-event transition.
//!
//! The actor owns the key/value mapping and the peer registry. It consumes
//! commands one at a time, in arrival order, and for each command decides
//! the state change and the response (if any) for the issuing client.
//! [`Store::step`] is that decision; its whole behaviour is pinned down by
//! [`spec_step`] over the mathematical state: a `Map` of key to value and
//! a `Set` of registered client identities.
//!
//! A response is produced only for clients present in the registry: a
//! command from an unregistered identity still takes effect on the mapping
//! (for `set`), but its response is silently discarded.

use vstd::prelude::*;

use crate::command::{ClientId, Command, SpecCommand};

verus! {

/// One key/value pair of the mapping.
struct Entry {
    key: String,
    value: String,
}

/// A response destined for one client: the store actor hands it to the
/// transport layer, which delivers `message` over that client's
/// connection.
#[derive(Debug, PartialEq)]
pub struct Response {
    pub to: ClientId,
    pub message: String,
}

/// Mathematical shape of a [`Response`].
pub ghost struct SpecResponse {
    pub to: ClientId,
    pub message: Seq<char>,
}

impl View for Response {
    type V = SpecResponse;

    open spec fn view(&self) -> SpecResponse {
        SpecResponse { to: self.to, message: self.message@ }
    }
}

/// View of a step's result, for contracts.
pub open spec fn resp_view(r: Option<Response>) -> Option<SpecResponse> {
    match r {
        Some(x) => Some(x@),
        None => None,
    }
}

/// Response to `get` on a bound key: the value, newline-terminated.
pub open spec fn value_msg(v: Seq<char>) -> Seq<char> {
    v + "\n"@
}

/// Response to `get` on an unbound key.
pub open spec fn unexisting_msg(k: Seq<char>) -> Seq<char> {
    "Unexisting variable '"@ + k + "'\n"@
}

/// Response to `set` on a previously unbound key.
pub open spec fn updated_msg(k: Seq<char>, v: Seq<char>) -> Seq<char> {
    "Variable '"@ + k + "' has been updated with '"@ + v + "'\n"@
}

/// Response to `set` on a bound key, reporting the replaced value.
pub open spec fn updated_old_msg(k: Seq<char>, v: Seq<char>, o: Seq<char>) -> Seq<char> {
    "Variable '"@ + k + "' has been updated with '"@ + v + "', old value was '"@ + o + "'\n"@
}

/// Response to an unrecognized command token.
pub open spec fn unknown_msg(t: Seq<char>) -> Seq<char> {
    "The command '"@ + t + "' does not exist\n"@
}

fn render_value(v: &String) -> (r: String)
    ensures
        r@ == value_msg(v@),
{
    v.clone().concat("\n")
}

fn render_unexisting(k: &String) -> (r: String)
    ensures
        r@ == unexisting_msg(k@),
{
    String::from_str("Unexisting variable '").concat(k.as_str()).concat("'\n")
}

fn render_updated(k: &String, v: &String) -> (r: String)
    ensures
        r@ == updated_msg(k@, v@),
{
    String::from_str("Variable '").concat(k.as_str()).concat(
        "' has been updated with '",
    ).concat(v.as_str()).concat("'\n")
}

fn render_updated_old(k: &String, v: &String, o: &String) -> (r: String)
    ensures
        r@ == updated_old_msg(k@, v@, o@),
{
    String::from_str("Variable '").concat(k.as_str()).concat(
        "' has been updated with '",
    ).concat(v.as_str()).concat("', old value was '").concat(o.as_str()).concat("'\n")
}

fn render_unknown(t: &String) -> (r: String)
    ensures
        r@ == unknown_msg(t@),
{
    String::from_str("The command '").concat(t.as_str()).concat("' does not exist\n")
}

/// The mapping that an entry list denotes; a later entry for the same key
/// wins, though the store keeps keys unique.
spec fn assoc_map(s: Seq<Entry>) -> Map<Seq<char>, Seq<char>>
    decreases s.len(),
{
    if s.len() == 0 {
        Map::empty()
    } else {
        assoc_map(s.drop_last()).insert(s.last().key@, s.last().value@)
    }
}

spec fn keys_distinct(s: Seq<Entry>) -> bool {
    forall|i: int, j: int| 0 <= i < j < s.len() ==> s[i].key@ != s[j].key@
}

proof fn lemma_assoc_found(s: Seq<Entry>, i: int)
    requires
        keys_distinct(s),
        0 <= i < s.len(),
    ensures
        assoc_map(s).contains_key(s[i].key@),
        assoc_map(s)[s[i].key@] == s[i].value@,
    decreases s.len(),
{
    if i < s.len() - 1 {
        assert(keys_distinct(s.drop_last()));
        lemma_assoc_found(s.drop_last(), i);
        assert(s.drop_last()[i] == s[i]);
        assert(s[i].key@ != s.last().key@);
    }
}

proof fn lemma_assoc_absent(s: Seq<Entry>, k: Seq<char>)
    requires
        forall|i: int| 0 <= i < s.len() ==> s[i].key@ != k,
    ensures
        !assoc_map(s).contains_key(k),
    decreases s.len(),
{
    if s.len() > 0 {
        assert(forall|i: int| 0 <= i < s.drop_last().len() ==> s.drop_last()[i] == s[i]);
        lemma_assoc_absent(s.drop_last(), k);
    }
}

proof fn lemma_assoc_update(s: Seq<Entry>, i: int, e: Entry)
    requires
        keys_distinct(s),
        0 <= i < s.len(),
        e.key@ == s[i].key@,
    ensures
        assoc_map(s.update(i, e)) == assoc_map(s).insert(e.key@, e.value@),
        keys_distinct(s.update(i, e)),
    decreases s.len(),
{
    let s2 = s.update(i, e);
    assert(keys_distinct(s2));
    if i == s.len() - 1 {
        assert(s2.drop_last() =~= s.drop_last());
        assert(s2.last() == e);
        assert(assoc_map(s2) =~= assoc_map(s).insert(e.key@, e.value@));
    } else {
        assert(s2.drop_last() =~= s.drop_last().update(i, e));
        assert(keys_distinct(s.drop_last()));
        assert(s.drop_last()[i] == s[i]);
        lemma_assoc_update(s.drop_last(), i, e);
        assert(s2.last() == s.last());
        assert(e.key@ != s.last().key@);
        assert(assoc_map(s2) =~= assoc_map(s).insert(e.key@, e.value@));
    }
}

proof fn lemma_assoc_push(s: Seq<Entry>, e: Entry)
    ensures
        assoc_map(s.push(e)) == assoc_map(s).insert(e.key@, e.value@),
{
    assert(s.push(e).drop_last() =~= s);
    assert(s.push(e).last() == e);
}

/// What one step does, over the mathematical state: the new mapping, the
/// new registry, and the response (if any) with its destination.
pub open spec fn spec_step(
    kv: Map<Seq<char>, Seq<char>>,
    reg: Set<ClientId>,
    cmd: SpecCommand,
) -> (Map<Seq<char>, Seq<char>>, Set<ClientId>, Option<SpecResponse>) {
    match cmd {
        SpecCommand::Get { variable_name, from } => {
            let resp = if reg.contains(from) {
                if kv.contains_key(variable_name) {
                    Some(SpecResponse { to: from, message: value_msg(kv[variable_name]) })
                } else {
                    Some(SpecResponse { to: from, message: unexisting_msg(variable_name) })
                }
            } else {
                None
            };
            (kv, reg, resp)
        },
        SpecCommand::SetValue { variable_name, variable_value, from } => {
            let resp = if reg.contains(from) {
                if kv.contains_key(variable_name) {
                    Some(SpecResponse {
                        to: from,
                        message: updated_old_msg(variable_name, variable_value, kv[variable_name]),
                    })
                } else {
                    Some(SpecResponse { to: from, message: updated_msg(variable_name, variable_value) })
                }
            } else {
                None
            };
            (kv.insert(variable_name, variable_value), reg, resp)
        },
        SpecCommand::Unknown { command_name, from } => {
            let resp = if reg.contains(from) {
                Some(SpecResponse { to: from, message: unknown_msg(command_name) })
            } else {
                None
            };
            (kv, reg, resp)
        },
        SpecCommand::NewClient { from } => (kv, reg.insert(from), None),
    }
}

/// The store actor's state: the key/value mapping and the peer registry.
/// The actor task is the sole owner; every other task reaches it only by
/// sending commands.
pub struct Store {
    entries: Vec<Entry>,
    peers: Vec<ClientId>,
}

impl Store {
    /// The key/value mapping this store denotes.
    pub closed spec fn kv(self) -> Map<Seq<char>, Seq<char>> {
        assoc_map(self.entries@)
    }

    /// The set of registered client identities.
    pub closed spec fn registered(self) -> Set<ClientId> {
        Set::new(|c: ClientId| self.peers@.contains(c))
    }

    /// Internal invariant: one entry per key.
    pub closed spec fn wf(self) -> bool {
        keys_distinct(self.entries@)
    }

    /// A fresh store: empty mapping, no registered peers.
    pub fn new() -> (s: Self)
        ensures
            s.wf(),
            s.kv() == Map::<Seq<char>, Seq<char>>::empty(),
            s.registered() == Set::<ClientId>::empty(),
    {
        let s = Store { entries: Vec::new(), peers: Vec::new() };
        proof {
            assert(s.kv() =~= Map::<Seq<char>, Seq<char>>::empty());
            assert(s.registered() =~= Set::<ClientId>::empty());
        }
        s
    }

    fn find(&self, key: &String) -> (r: Option<usize>)
        ensures
            match r {
                Some(i) => i < self.entries@.len() && self.entries@[i as int].key@ == key@,
                None => forall|j: int| 0 <= j < self.entries@.len() ==> self.entries@[j].key@ != key@,
            },
    {
        let mut i: usize = 0;
        while i < self.entries.len()
            invariant
                i <= self.entries@.len(),
                forall|j: int| 0 <= j < i ==> self.entries@[j].key@ != key@,
            decreases self.entries@.len() - i,
        {
            let e: &Entry = &self.entries[i];
            if e.key == *key {
                return Some(i);
            }
            i = i + 1;
        }
        None
    }

    /// Whether `id` has a registry entry, i.e. may receive responses.
    pub fn is_registered(&self, id: ClientId) -> (r: bool)
        ensures
            r == self.registered().contains(id),
    {
        let mut i: usize = 0;
        while i < self.peers.len()
            invariant
                i <= self.peers@.len(),
                forall|j: int| 0 <= j < i ==> self.peers@[j] != id,
            decreases self.peers@.len() - i,
        {
            if self.peers[i] == id {
                assert(self.peers@[i as int] == id);
                return true;
            }
            i = i + 1;
        }
        false
    }

    /// Processes one command: mutates the mapping and registry as
    /// [`spec_step`] says, and returns the response owed to the issuing
    /// client, or `None` when that client is not registered (or the
    /// command was a registration).
    pub fn step(&mut self, cmd: Command) -> (r: Option<Response>)
        requires
            old(self).wf(),
        ensures
            final(self).wf(),
            final(self).kv() == spec_step(old(self).kv(), old(self).registered(), cmd@).0,
            final(self).registered() == spec_step(old(self).kv(), old(self).registered(), cmd@).1,
            resp_view(r) == spec_step(old(self).kv(), old(self).registered(), cmd@).2,
    {
        match cmd {
            Command::Get { variable_name, from } => {
                let found = self.find(&variable_name);
                let registered = self.is_registered(from);
                if registered {
                    match found {
                        Some(i) => {
                            proof {
                                lemma_assoc_found(self.entries@, i as int);
                            }
                            let e: &Entry = &self.entries[i];
                            Some(Response { to: from, message: render_value(&e.value) })
                        },
                        None => {
                            proof {
                                lemma_assoc_absent(self.entries@, variable_name@);
                            }
                            Some(Response { to: from, message: render_unexisting(&variable_name) })
                        },
                    }
                } else {
                    None
                }
            },
            Command::SetValue { variable_name, variable_value, from } => {
                let registered = self.is_registered(from);
                let found = self.find(&variable_name);
                match found {
                    Some(i) => {
                        proof {
                            lemma_assoc_found(self.entries@, i as int);
                        }
                        let old_entry = self.entries.remove(i);
                        let resp = if registered {
                            Some(Response {
                                to: from,
                                message: render_updated_old(
                                    &variable_name,
                                    &variable_value,
                                    &old_entry.value,
                                ),
                            })
                        } else {
                            None
                        };
                        self.entries.insert(i, Entry { key: old_entry.key, value: variable_value });
                        proof {
                            assert(self.entries@ =~= old(self).entries@.update(
                                i as int,
                                self.entries@[i as int],
                            ));
                            lemma_assoc_update(old(self).entries@, i as int, self.entries@[i as int]);
                        }
                        resp
                    },
                    None => {
                        let resp = if registered {
                            Some(Response {
                                to: from,
                                message: render_updated(&variable_name, &variable_value),
                            })
                        } else {
                            None
                        };
                        proof {
                            lemma_assoc_absent(self.entries@, variable_name@);
                        }
                        self.entries.push(Entry { key: variable_name, value: variable_value });
                        proof {
                            lemma_assoc_push(old(self).entries@, self.entries@.last());
                            assert(self.entries@.drop_last() =~= old(self).entries@);
                            assert forall|i: int, j: int|
                                0 <= i < j < self.entries@.len() implies self.entries@[i].key@
                                != self.entries@[j].key@ by {
                                if j == self.entries@.len() - 1 {
                                    assert(old(self).entries@[i].key@ != variable_name@);
                                }
                            }
                        }
                        resp
                    },
                }
            },
            Command::Unknown { command_name, from } => {
                let registered = self.is_registered(from);
                if registered {
                    Some(Response { to: from, message: render_unknown(&command_name) })
                } else {
                    None
                }
            },
            Command::NewClient(from) => {
                let registered = self.is_registered(from);
                if !registered {
                    self.peers.push(from);
                }
                proof {
                    assert forall|c: ClientId|
                        self.peers@.contains(c) <==> (old(self).peers@.contains(c) || c
                        == from) by {
                        if old(self).peers@.contains(c) {
                            let j = choose|j: int|
                                0 <= j < old(self).peers@.len() && old(self).peers@[j] == c;
                            assert(self.peers@[j] == c);
                        }
                        if c == from && !registered {
                            assert(self.peers@[old(self).peers@.len() as int] == c);
                        }
                        if self.peers@.contains(c) {
                            let j = choose|j: int|
                                0 <= j < self.peers@.len() && self.peers@[j] == c;
                            if j < old(self).peers@.len() {
                                assert(old(self).peers@[j] == c);
                            } else {
                                assert(c == from);
                            }
                        }
                    }
                    assert(self.registered() =~= old(self).registered().insert(from));
                }
                None
            },
        }
    }
}

} // verus!
