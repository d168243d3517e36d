//! A replicated key-value store, the state machine used in tests and
//! examples: committed commands `SET key value` and `GET key` act on a map
//! from byte strings to byte strings.

use vstd::prelude::*;
use std::collections::HashMap;
use crate::raft::error::{RaftError, RaftResult};
use crate::raft::log::LogEntry;
use crate::raft::node::StateMachine;

verus! {

/// Checks `bytes` with `std::str::from_utf8`, which accepts exactly the
/// well-formed UTF-8 encodings (the property vstd names `valid_utf8`).
#[verifier::external_body]
fn is_utf8(bytes: &[u8]) -> (r: bool)
    ensures
        r == vstd::utf8::valid_utf8(bytes@),
{
    std::str::from_utf8(bytes).is_ok()
}

/// What `serde_json::from_slice` makes of `b` read as a JSON object whose
/// members are strings: the map from each member's name to its value, both
/// as UTF-8 bytes, or `None` where `b` is no such object.
pub uninterp spec fn json_string_object(b: Seq<u8>) -> Option<Map<Seq<u8>, Seq<u8>>>;

/// Serialises the pairs as a JSON object through `serde_json::to_vec` on a
/// `HashMap<String, String>` (bytes read with `String::from_utf8_lossy`).
/// Serialising a map with string keys does not fail (serde_json's
/// documentation names only failing `Serialize` impls and non-string keys),
/// and where every key and value is valid UTF-8 the text parses back to the
/// map of the pairs. The order of the members follows the walk of the hash
/// map, which varies between processes, so the bytes themselves are not
/// stated.
#[verifier::external_body]
fn encode_pairs(pairs: &Vec<(Vec<u8>, Vec<u8>)>) -> (r: Result<Vec<u8>, String>)
    ensures
        r is Ok,
        (forall|i: int|
            0 <= i < pairs@.len() ==> vstd::utf8::valid_utf8(#[trigger] pairs@[i].0@)
                && vstd::utf8::valid_utf8(pairs@[i].1@)) ==> json_string_object(r->Ok_0@) == Some(
            pairs_map(pairs@),
        ),
{
    let map: HashMap<String, String> = pairs.iter().map(
        |(k, v)| (String::from_utf8_lossy(k).into_owned(), String::from_utf8_lossy(v).into_owned()),
    ).collect();
    serde_json::to_vec(&map).map_err(|e| e.to_string())
}

/// Parses a JSON object of strings through `serde_json::from_slice` into a
/// `HashMap<String, String>` and hands its members out as byte pairs, each
/// key once. The members come in the order of the walk of the hash map,
/// which varies between processes, so only the map they make is stated.
#[verifier::external_body]
fn decode_pairs(bytes: &[u8]) -> (r: Result<Vec<(Vec<u8>, Vec<u8>)>, String>)
    ensures
        match r {
            Ok(p) => json_string_object(bytes@) == Some(pairs_map(p@)) && distinct_keys(p@),
            Err(_) => json_string_object(bytes@) is None,
        },
{
    let map: HashMap<String, String> = serde_json::from_slice(bytes).map_err(|e| e.to_string())?;
    Ok(map.into_iter().map(|(k, v)| (k.into_bytes(), v.into_bytes())).collect())
}

/// The bytes of `OK`.
pub open spec fn ok_bytes() -> Seq<u8> {
    seq![79u8, 75]
}

/// The bytes of `NOT_FOUND`.
pub open spec fn not_found_bytes() -> Seq<u8> {
    seq![78u8, 79, 84, 95, 70, 79, 85, 78, 68]
}

/// The bytes of `UNKNOWN_COMMAND`.
pub open spec fn unknown_bytes() -> Seq<u8> {
    seq![85u8, 78, 75, 78, 79, 87, 78, 95, 67, 79, 77, 77, 65, 78, 68]
}

/// Whether `cmd` begins with the four bytes `p`.
pub open spec fn has_prefix(cmd: Seq<u8>, p: Seq<u8>) -> bool {
    cmd.len() >= p.len() && cmd.take(p.len() as int) == p
}

/// The position of the first space in `s` from `i` on.
pub open spec fn first_space_from(s: Seq<u8>, i: int) -> Option<int>
    decreases s.len() - i,
{
    if i < 0 || i >= s.len() {
        None
    } else if s[i] == 32u8 {
        Some(i)
    } else {
        first_space_from(s, i + 1)
    }
}

/// What a command does to the store `m`: the store afterwards and the
/// answer. A command that is not UTF-8 is unknown; `SET key value` (split at
/// the first two spaces, the value keeping any further space) stores the
/// value; `GET key` answers the value or `NOT_FOUND`.
pub open spec fn command_outcome(m: Map<Seq<u8>, Seq<u8>>, cmd: Seq<u8>) -> (Map<Seq<u8>, Seq<u8>>, Seq<u8>) {
    if !vstd::utf8::valid_utf8(cmd) {
        (m, unknown_bytes())
    } else if has_prefix(cmd, seq![83u8, 69, 84, 32]) {
        let rest = cmd.skip(4);
        match first_space_from(rest, 0) {
            Some(i) => (m.insert(rest.take(i), rest.skip(i + 1)), ok_bytes()),
            None => (m, unknown_bytes()),
        }
    } else if has_prefix(cmd, seq![71u8, 69, 84, 32]) {
        let key = cmd.skip(4);
        if m.contains_key(key) {
            (m, m[key])
        } else {
            (m, not_found_bytes())
        }
    } else {
        (m, unknown_bytes())
    }
}

/// An in-memory key-value store fed by committed log entries.
#[derive(Debug)]
pub struct InMemoryStateMachine {
    data: Vec<(Vec<u8>, Vec<u8>)>,
}

/// The map that a list of distinct-keyed pairs holds.
pub open spec fn pairs_map(pairs: Seq<(Vec<u8>, Vec<u8>)>) -> Map<Seq<u8>, Seq<u8>>
    decreases pairs.len(),
{
    if pairs.len() == 0 {
        Map::empty()
    } else {
        pairs_map(pairs.drop_last()).insert(pairs.last().0@, pairs.last().1@)
    }
}

/// Whether the keys of the pairs are distinct.
pub open spec fn distinct_keys(pairs: Seq<(Vec<u8>, Vec<u8>)>) -> bool {
    forall|i: int, j: int| 0 <= i < j < pairs.len() ==> #[trigger] pairs[i].0@ != #[trigger] pairs[j].0@
}

proof fn lemma_pairs_map_lookup(pairs: Seq<(Vec<u8>, Vec<u8>)>, k: Seq<u8>)
    requires
        distinct_keys(pairs),
    ensures
        pairs_map(pairs).contains_key(k) <==> exists|i: int| 0 <= i < pairs.len() && pairs[i].0@ == k,
        forall|i: int| 0 <= i < pairs.len() && #[trigger] pairs[i].0@ == k ==> pairs_map(pairs)[k]
            == pairs[i].1@,
    decreases pairs.len(),
{
    if pairs.len() > 0 {
        let init = pairs.drop_last();
        assert(distinct_keys(init)) by {
            assert forall|i: int, j: int| 0 <= i < j < init.len() implies init[i].0@ != init[j].0@ by {
                assert(init[i] == pairs[i] && init[j] == pairs[j]);
            }
        }
        lemma_pairs_map_lookup(init, k);
        if pairs_map(pairs).contains_key(k) && pairs.last().0@ != k {
            let i = choose|i: int| 0 <= i < init.len() && init[i].0@ == k;
            assert(pairs[i] == init[i]);
        }
        assert forall|i: int| 0 <= i < pairs.len() && #[trigger] pairs[i].0@ == k implies pairs_map(
            pairs,
        )[k] == pairs[i].1@ by {
            if i < pairs.len() - 1 {
                assert(pairs[i] == init[i]);
                assert(pairs.last().0@ != k);
            }
        }
        if exists|i: int| 0 <= i < pairs.len() && pairs[i].0@ == k {
            let i = choose|i: int| 0 <= i < pairs.len() && pairs[i].0@ == k;
            if i < pairs.len() - 1 {
                assert(init[i] == pairs[i]);
            }
        }
    }
}

impl View for InMemoryStateMachine {
    type V = Map<Seq<u8>, Seq<u8>>;

    closed spec fn view(&self) -> Map<Seq<u8>, Seq<u8>> {
        pairs_map(self.data@)
    }
}

/// Whether two byte vectors hold the same bytes.
fn same_bytes(a: &Vec<u8>, b: &[u8]) -> (r: bool)
    ensures
        r == (a@ == b@),
{
    if a.len() != b.len() {
        return false;
    }
    let mut i: usize = 0;
    while i < a.len()
        invariant
            i <= a.len(),
            a.len() == b.len(),
            forall|j: int| 0 <= j < i ==> a@[j] == b@[j],
        decreases a.len() - i,
    {
        if a[i] != b[i] {
            return false;
        }
        i = i + 1;
    }
    proof {
        assert(a@ =~= b@);
    }
    true
}

/// A copy of `s[from..]`.
fn bytes_from(s: &[u8], from: usize) -> (r: Vec<u8>)
    requires
        from <= s@.len(),
    ensures
        r@ == s@.skip(from as int),
{
    let mut out: Vec<u8> = Vec::new();
    let mut i: usize = from;
    while i < s.len()
        invariant
            from <= i <= s.len(),
            out@ == s@.subrange(from as int, i as int),
        decreases s.len() - i,
    {
        out.push(s[i]);
        proof {
            assert(out@ =~= s@.subrange(from as int, i + 1));
        }
        i = i + 1;
    }
    proof {
        assert(out@ =~= s@.skip(from as int));
    }
    out
}

/// A copy of `s[from..to]`.
fn bytes_between(s: &[u8], from: usize, to: usize) -> (r: Vec<u8>)
    requires
        from <= to <= s@.len(),
    ensures
        r@ == s@.subrange(from as int, to as int),
{
    let mut out: Vec<u8> = Vec::new();
    let mut i: usize = from;
    while i < to
        invariant
            from <= i <= to,
            to <= s.len(),
            out@ == s@.subrange(from as int, i as int),
        decreases to - i,
    {
        out.push(s[i]);
        proof {
            assert(out@ =~= s@.subrange(from as int, i + 1));
        }
        i = i + 1;
    }
    out
}

/// Whether `cmd` begins with the four given bytes.
fn starts_with4(cmd: &[u8], a: u8, b: u8, c: u8, d: u8) -> (r: bool)
    ensures
        r == has_prefix(cmd@, seq![a, b, c, d]),
{
    if cmd.len() < 4 {
        return false;
    }
    let r = cmd[0] == a && cmd[1] == b && cmd[2] == c && cmd[3] == d;
    proof {
        if r {
            assert(cmd@.take(4) =~= seq![a, b, c, d]);
        } else {
            let p = seq![a, b, c, d];
            if cmd@.take(4) == p {
                assert(cmd@.take(4)[0] == a && cmd@.take(4)[1] == b);
                assert(cmd@.take(4)[2] == c && cmd@.take(4)[3] == d);
            }
        }
    }
    r
}

/// Position of `key` among the pairs.
fn position_in(data: &Vec<(Vec<u8>, Vec<u8>)>, key: &[u8]) -> (r: Option<usize>)
    ensures
        match r {
            Some(i) => i < data@.len() && data@[i as int].0@ == key@,
            None => forall|i: int| 0 <= i < data@.len() ==> #[trigger] data@[i].0@ != key@,
        },
{
    let mut i: usize = 0;
    while i < data.len()
        invariant
            i <= data@.len(),
            forall|j: int| 0 <= j < i ==> #[trigger] data@[j].0@ != key@,
        decreases data.len() - i,
    {
        if same_bytes(&data[i].0, key) {
            return Some(i);
        }
        i = i + 1;
    }
    None
}

/// The pairs with `value` stored under `key`.
fn insert_pair(data: Vec<(Vec<u8>, Vec<u8>)>, key: Vec<u8>, value: Vec<u8>) -> (r: Vec<(Vec<u8>, Vec<u8>)>)
    requires
        distinct_keys(data@),
    ensures
        distinct_keys(r@),
        pairs_map(r@) == pairs_map(data@).insert(key@, value@),
{
    let mut data = data;
    proof {
        lemma_pairs_map_lookup(data@, key@);
    }
    let ghost before = data@;
    match position_in(&data, key.as_slice()) {
        Some(i) => {
            let k = bytes_from(key.as_slice(), 0);
            data.set(i, (k, value));
            proof {
                assert(forall|a: int| 0 <= a < data@.len() ==> #[trigger] data@[a].0@ == before[a].0@);
                assert(distinct_keys(data@)) by {
                    assert forall|a: int, b: int| 0 <= a < b < data@.len() implies data@[a].0@
                        != data@[b].0@ by {
                        assert(before[a].0@ != before[b].0@);
                    }
                }
                assert forall|k2: Seq<u8>| #[trigger] pairs_map(data@).contains_key(k2)
                    == pairs_map(before).insert(key@, value@).contains_key(k2) && (pairs_map(
                    data@,
                ).contains_key(k2) ==> pairs_map(data@)[k2] == pairs_map(before).insert(
                    key@,
                    value@,
                )[k2]) by {
                    lemma_pairs_map_lookup(data@, k2);
                    lemma_pairs_map_lookup(before, k2);
                    if k2 != key@ {
                        if exists|j: int| 0 <= j < before.len() && before[j].0@ == k2 {
                            let j = choose|j: int| 0 <= j < before.len() && before[j].0@ == k2;
                            assert(data@[j] == before[j]);
                        }
                        if exists|j: int| 0 <= j < data@.len() && data@[j].0@ == k2 {
                            let j = choose|j: int| 0 <= j < data@.len() && data@[j].0@ == k2;
                            assert(j != i);
                            assert(data@[j] == before[j]);
                        }
                    } else {
                        assert(data@[i as int].0@ == k2);
                    }
                }
                assert(pairs_map(data@) =~= pairs_map(before).insert(key@, value@));
            }
        },
        None => {
            data.push((key, value));
            proof {
                assert(data@.drop_last() =~= before);
                assert(distinct_keys(data@)) by {
                    assert forall|a: int, b: int| 0 <= a < b < data@.len() implies data@[a].0@
                        != data@[b].0@ by {
                        if b < before.len() {
                            assert(before[a].0@ != before[b].0@);
                        } else {
                            assert(before[a].0@ != key@);
                        }
                    }
                }
            }
        },
    }
    data
}

impl InMemoryStateMachine {
    /// The invariant of the store: keys are distinct.
    #[verifier::type_invariant]
    spec fn wf(self) -> bool {
        distinct_keys(self.data@)
    }

    /// An empty store.
    pub fn new() -> (s: InMemoryStateMachine)
        ensures
            s@ == Map::<Seq<u8>, Seq<u8>>::empty(),
    {
        InMemoryStateMachine { data: Vec::new() }
    }

    /// The value stored under `key`.
    pub fn get(&self, key: &[u8]) -> (r: Option<Vec<u8>>)
        ensures
            match r {
                Some(v) => self@.contains_key(key@) && v@ == self@[key@],
                None => !self@.contains_key(key@),
            },
    {
        proof {
            use_type_invariant(self);
            lemma_pairs_map_lookup(self.data@, key@);
        }
        match position_in(&self.data, key) {
            Some(i) => Some(bytes_from(self.data[i].1.as_slice(), 0)),
            None => None,
        }
    }

    /// Stores `value` under `key`.
    pub fn insert(&mut self, key: Vec<u8>, value: Vec<u8>)
        ensures
            final(self)@ == old(self)@.insert(key@, value@),
    {
        proof {
            use_type_invariant(&*self);
        }
        let mut data: Vec<(Vec<u8>, Vec<u8>)> = Vec::new();
        std::mem::swap(&mut data, &mut self.data);
        let data = insert_pair(data, key, value);
        self.data = data;
    }

    /// Runs one command on the store and returns its answer.
    pub fn execute(&mut self, cmd: &[u8]) -> (r: Vec<u8>)
        ensures
            (final(self)@, r@) == command_outcome(old(self)@, cmd@),
    {
        let unknown: Vec<u8> = vec![85u8, 78, 75, 78, 79, 87, 78, 95, 67, 79, 77, 77, 65, 78, 68];
        proof {
            assert(unknown@ =~= unknown_bytes());
        }
        if !is_utf8(cmd) {
            return unknown;
        }
        if starts_with4(cmd, 83, 69, 84, 32) {
            let ghost rest = cmd@.skip(4);
            let mut i: usize = 4;
            while i < cmd.len()
                invariant
                    4 <= i <= cmd@.len(),
                    *self == *old(self),
                    vstd::utf8::valid_utf8(cmd@),
                    has_prefix(cmd@, seq![83u8, 69, 84, 32]),
                    unknown@ == unknown_bytes(),
                    rest == cmd@.skip(4),
                    first_space_from(rest, 0) == first_space_from(rest, i - 4),
                decreases cmd.len() - i,
            {
                if cmd[i] == 32 {
                    let key = bytes_between(cmd, 4, i);
                    let value = bytes_from(cmd, i + 1);
                    proof {
                        assert(key@ =~= rest.take(i - 4));
                        assert(value@ =~= rest.skip(i - 4 + 1));
                    }
                    self.insert(key, value);
                    let ok: Vec<u8> = vec![79u8, 75];
                    proof {
                        assert(ok@ =~= ok_bytes());
                    }
                    return ok;
                }
                i = i + 1;
            }
            return unknown;
        }
        if starts_with4(cmd, 71, 69, 84, 32) {
            let key = bytes_from(cmd, 4);
            match self.get(key.as_slice()) {
                Some(v) => {
                    return v;
                },
                None => {
                    let nf: Vec<u8> = vec![78u8, 79, 84, 95, 70, 79, 85, 78, 68];
                    proof {
                        assert(nf@ =~= not_found_bytes());
                    }
                    return nf;
                },
            }
        }
        unknown
    }
}

impl StateMachine for InMemoryStateMachine {
    fn apply(&mut self, entry: &LogEntry) -> (r: RaftResult<Vec<u8>>)
        ensures
            r is Ok,
            (final(self)@, r->Ok_0@) == command_outcome(old(self)@, entry.data@),
    {
        Ok(self.execute(entry.data.as_slice()))
    }

    fn take_snapshot(&mut self) -> (r: RaftResult<Vec<u8>>)
        ensures
            r is Ok,
            final(self)@ == old(self)@,
            (forall|k: Seq<u8>|
                #[trigger] old(self)@.contains_key(k) ==> vstd::utf8::valid_utf8(k)
                    && vstd::utf8::valid_utf8(old(self)@[k])) ==> json_string_object(r->Ok_0@) == Some(
                old(self)@,
            ),
    {
        proof {
            use_type_invariant(&*self);
            assert forall|i: int| 0 <= i < self.data@.len() && (forall|k: Seq<u8>|
                #[trigger] self@.contains_key(k) ==> vstd::utf8::valid_utf8(k) && vstd::utf8::valid_utf8(
                    self@[k],
                )) implies vstd::utf8::valid_utf8(#[trigger] self.data@[i].0@) && vstd::utf8::valid_utf8(
                self.data@[i].1@,
            ) by {
                lemma_pairs_map_lookup(self.data@, self.data@[i].0@);
                assert(self@.contains_key(self.data@[i].0@));
            }
        }
        match encode_pairs(&self.data) {
            Ok(bytes) => Ok(bytes),
            Err(message) => Err(RaftError::Internal { message }),
        }
    }

    fn restore_from_snapshot(&mut self, snapshot: &[u8]) -> (r: RaftResult<()>)
        ensures
            match json_string_object(snapshot@) {
                Some(m) => r is Ok && final(self)@ == m,
                None => r is Err && final(self)@ == old(self)@,
            },
    {
        let pairs = match decode_pairs(snapshot) {
            Ok(p) => p,
            Err(message) => {
                return Err(RaftError::Internal { message });
            },
        };
        let mut fresh = InMemoryStateMachine::new();
        let mut i: usize = 0;
        proof {
            assert(pairs@.take(0) =~= Seq::<(Vec<u8>, Vec<u8>)>::empty());
        }
        while i < pairs.len()
            invariant
                i <= pairs.len(),
                fresh@ == pairs_map(pairs@.take(i as int)),
            decreases pairs.len() - i,
        {
            let k = bytes_from(pairs[i].0.as_slice(), 0);
            let v = bytes_from(pairs[i].1.as_slice(), 0);
            proof {
                assert(k@ =~= pairs@[i as int].0@);
                assert(v@ =~= pairs@[i as int].1@);
                assert(pairs@.take(i + 1).drop_last() =~= pairs@.take(i as int));
            }
            fresh.insert(k, v);
            i = i + 1;
        }
        proof {
            assert(pairs@.take(pairs@.len() as int) =~= pairs@);
        }
        *self = fresh;
        Ok(())
    }
}

} // verus!
