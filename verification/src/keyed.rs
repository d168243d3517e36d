//! Entries keyed by text, each key at most once: what a map from texts
//! to values holds, kept in a list.

use vstd::prelude::*;

verus! {

/// Whether no two entries of `s` have the same key.
pub open spec fn distinct_keys<V>(s: Seq<(String, V)>) -> bool {
    forall|i: int, j: int|
        #![trigger s[i], s[j]]
        0 <= i < j < s.len() ==> s[i].0@ != s[j].0@
}

/// The value under `k` among the entries of `s`, if any.
pub open spec fn value_at<V>(s: Seq<(String, V)>, k: Seq<char>) -> Option<V> {
    if exists|i: int| 0 <= i < s.len() && #[trigger] s[i].0@ == k {
        Some(s[choose|i: int| 0 <= i < s.len() && #[trigger] s[i].0@ == k].1)
    } else {
        None
    }
}

/// Puts `value` under `key` in `v`, in place of the value it had.
pub fn put_entry<V>(v: &mut Vec<(String, V)>, key: String, value: V)
    requires
        distinct_keys(old(v)@),
    ensures
        distinct_keys(final(v)@),
        forall|k: Seq<char>|
            #[trigger] value_at(final(v)@, k) == if k == key@ {
                Some(value)
            } else {
                value_at(old(v)@, k)
            },
{
    let ghost before = v@;
    let mut i: usize = 0;
    let mut found = false;
    while i < v.len()
        invariant_except_break
            !found,
        invariant
            i <= v@.len(),
            v@ == before,
            forall|j: int| 0 <= j < i ==> #[trigger] v@[j].0@ != key@,
        ensures
            v@ == before,
            found ==> i < v@.len() && v@[i as int].0@ == key@,
            !found ==> i == v@.len(),
            forall|j: int| 0 <= j < i ==> #[trigger] v@[j].0@ != key@,
        decreases v.len() - i,
    {
        if crate::runtime::text::same_text(v[i].0.as_str(), key.as_str()) {
            found = true;
            break;
        }
        i = i + 1;
    }
    if found {
            let ghost kv = key@;
            let name = key;
            v.set(i, (name, value));
            proof {
                assert forall|a: int, b: int|
                    #![trigger v@[a], v@[b]]
                    0 <= a < b < v@.len() implies v@[a].0@ != v@[b].0@ by {
                    if a != i as int && b != i as int {
                        assert(before[a] == v@[a] && before[b] == v@[b]);
                    } else if a == i as int {
                        assert(before[a].0@ == v@[a].0@);
                        assert(before[b] == v@[b]);
                    } else {
                        assert(before[b].0@ == v@[b].0@);
                        assert(before[a] == v@[a]);
                    }
                }
                assert forall|k: Seq<char>|
                    #[trigger] value_at(v@, k) == if k == kv {
                        Some(value)
                    } else {
                        value_at(before, k)
                    } by {
                    if k == kv {
                        assert(v@[i as int].0@ == k);
                        let c = choose|c: int| 0 <= c < v@.len() && #[trigger] v@[c].0@ == k;
                        if c != i as int {
                            if c < i as int {
                                assert(v@[c] == before[c]);
                            } else {
                                assert(v@[c].0@ != v@[i as int].0@);
                            }
                        }
                    } else {
                        if exists|c: int| 0 <= c < v@.len() && #[trigger] v@[c].0@ == k {
                            let c = choose|c: int| 0 <= c < v@.len() && #[trigger] v@[c].0@ == k;
                            assert(c != i as int);
                            assert(before[c] == v@[c]);
                            let d = choose|d: int| 0 <= d < before.len() && #[trigger] before[d].0@ == k;
                            assert(d != i as int);
                            if d != c {
                                if d < c {
                                    assert(before[d].0@ != before[c].0@);
                                } else {
                                    assert(before[c].0@ != before[d].0@);
                                }
                            }
                        } else {
                            if exists|d: int| 0 <= d < before.len() && #[trigger] before[d].0@ == k {
                                let d = choose|d: int| 0 <= d < before.len() && #[trigger] before[d].0@ == k;
                                assert(d != i as int);
                                assert(v@[d] == before[d]);
                            }
                        }
                    }
                }
            }
            return;
        }
    let ghost kv = key@;
    v.push((key, value));
    proof {
        assert forall|a: int, b: int|
            #![trigger v@[a], v@[b]]
            0 <= a < b < v@.len() implies v@[a].0@ != v@[b].0@ by {
            if b < before.len() {
                assert(before[a] == v@[a] && before[b] == v@[b]);
            } else {
                assert(before[a] == v@[a]);
            }
        }
        assert forall|k: Seq<char>|
            #[trigger] value_at(v@, k) == if k == kv {
                Some(value)
            } else {
                value_at(before, k)
            } by {
            let n = before.len() as int;
            if k == kv {
                assert(v@[n].0@ == k);
                let c = choose|c: int| 0 <= c < v@.len() && #[trigger] v@[c].0@ == k;
                if c < n {
                    assert(v@[c] == before[c]);
                }
            } else {
                if exists|c: int| 0 <= c < v@.len() && #[trigger] v@[c].0@ == k {
                    let c = choose|c: int| 0 <= c < v@.len() && #[trigger] v@[c].0@ == k;
                    assert(c < n);
                    assert(before[c] == v@[c]);
                    let d = choose|d: int| 0 <= d < before.len() && #[trigger] before[d].0@ == k;
                    if d != c {
                        assert(v@[d] == before[d]);
                        if d < c {
                            assert(v@[d].0@ != v@[c].0@);
                        } else {
                            assert(v@[c].0@ != v@[d].0@);
                        }
                    }
                } else {
                    if exists|d: int| 0 <= d < before.len() && #[trigger] before[d].0@ == k {
                        let d = choose|d: int| 0 <= d < before.len() && #[trigger] before[d].0@ == k;
                        assert(v@[d] == before[d]);
                    }
                }
            }
        }
    }
}

} // verus!
