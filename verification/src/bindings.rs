//! Key-binding tables.
//!
//! A binding table associates raw key codes with sets of action
//! identifiers.  It is kept as a duplicate-free list of `(key, action)`
//! pairs; its mathematical model is the set of those pairs.  The same
//! table shape serves both the session-wide ("global") bindings and each
//! page's local bindings.

use vstd::prelude::*;

verus! {

/// The actions a binding table associates with `key`: the model of what
/// `resolve` returns.
pub open spec fn actions_for(table: Set<(i32, u32)>, key: i32) -> Set<u32> {
    Set::new(|a: u32| table.contains((key, a)))
}

/// Law: binding a pair and then unbinding it restores the binding table
/// — and with it the actions resolved for every key — to its pre-bind
/// state.  `bind` grows the table's set by the pair and `unbind` removes
/// it again, so the round trip is the identity whenever the pair was not
/// already bound.  (When it was, the round trip removes it: the single
/// set holds no second copy to restore.)
pub proof fn lemma_bind_unbind_roundtrip(table: Set<(i32, u32)>, key: i32, action: u32)
    requires
        !table.contains((key, action)),
    ensures
        table.insert((key, action)).remove((key, action)) == table,
        forall|k: i32|
            actions_for(table.insert((key, action)).remove((key, action)), k) == actions_for(
                table,
                k,
            ),
{
    assert(table.insert((key, action)).remove((key, action)) =~= table);
    assert forall|k: i32|
        actions_for(table.insert((key, action)).remove((key, action)), k) == actions_for(
        table,
        k,
    ) by {
        assert(actions_for(table.insert((key, action)).remove((key, action)), k) =~= actions_for(
            table,
            k,
        ));
    }
}

/// Pushing an element adds exactly it to a list's set of elements, and
/// keeps the list duplicate-free if it was not already present.
proof fn lemma_push_to_set<A>(s: Seq<A>, x: A)
    ensures
        s.push(x).to_set() =~= s.to_set().insert(x),
        forall|b: A| s.push(x).contains(b) <==> s.contains(b) || b == x,
        !s.contains(x) && s.no_duplicates() ==> s.push(x).no_duplicates(),
{
    let p = s.push(x);
    assert(p[s.len() as int] == x);
    assert forall|b: A| p.contains(b) implies s.contains(b) || b == x by {
        let j = choose|j: int| 0 <= j < p.len() && p[j] == b;
        if j < s.len() {
            assert(s[j] == b);
        }
    }
    assert forall|b: A| s.contains(b) implies p.contains(b) by {
        let j = choose|j: int| 0 <= j < s.len() && s[j] == b;
        assert(p[j] == b);
    }
    if !s.contains(x) && s.no_duplicates() {
        assert forall|i: int, j: int|
            0 <= i < p.len() && 0 <= j < p.len() && i != j implies p[i] != p[j] by {
            if i < s.len() && j < s.len() {
            } else if j == s.len() {
                assert(s.contains(s[i]));
            } else {
                assert(s.contains(s[j]));
            }
        }
    }
}

/// Removing position `i` from a duplicate-free list removes exactly that
/// element from the list's set of elements.
proof fn lemma_remove_to_set<A>(s: Seq<A>, i: int)
    requires
        s.no_duplicates(),
        0 <= i < s.len(),
    ensures
        s.remove(i).to_set() =~= s.to_set().remove(s[i]),
        s.remove(i).no_duplicates(),
{
    let r = s.remove(i);
    assert forall|j: int, k: int|
        0 <= j < r.len() && 0 <= k < r.len() && j != k implies r[j] != r[k] by {
        let j2: int = if j < i { j } else { j + 1 };
        let k2: int = if k < i { k } else { k + 1 };
        assert(r[j] == s[j2] && r[k] == s[k2]);
    }
    assert forall|x: A| r.to_set().contains(x) implies s.to_set().remove(s[i]).contains(x) by {
        let j = choose|j: int| 0 <= j < r.len() && r[j] == x;
        let j2: int = if j < i { j } else { j + 1 };
        assert(s[j2] == x);
        assert(j2 != i ==> s[j2] != s[i]);
    }
    assert forall|x: A| s.to_set().remove(s[i]).contains(x) implies r.to_set().contains(x) by {
        let j = choose|j: int| 0 <= j < s.len() && s[j] == x;
        assert(j != i);
        if j < i {
            assert(r[j] == x);
        } else {
            assert(r[j - 1] == x);
        }
    }
}

/// Adds `action` to the set bound to `key`; reports whether the pair was
/// newly added (`false` if it was already present).
pub fn bind_pair(table: &mut Vec<(i32, u32)>, key: i32, action: u32) -> (added: bool)
    requires
        old(table)@.no_duplicates(),
    ensures
        final(table)@.no_duplicates(),
        final(table)@.to_set() == old(table)@.to_set().insert((key, action)),
        added == !old(table)@.to_set().contains((key, action)),
{
    let n = table.len();
    for i in 0..n
        invariant
            n == table@.len(),
            table@ == old(table)@,
            table@.no_duplicates(),
            forall|j: int| 0 <= j < i ==> table@[j] != (key, action),
    {
        let (k, a) = table[i];
        if k == key && a == action {
            proof {
                assert(table@.to_set().contains((key, action)));
                assert(table@.to_set() =~= table@.to_set().insert((key, action)));
            }
            return false;
        }
    }
    proof {
        assert(!table@.contains((key, action)));
        lemma_push_to_set(table@, (key, action));
    }
    table.push((key, action));
    true
}

/// Removes the `(key, action)` pair; reports whether it had been present.
pub fn unbind_pair(table: &mut Vec<(i32, u32)>, key: i32, action: u32) -> (present: bool)
    requires
        old(table)@.no_duplicates(),
    ensures
        final(table)@.no_duplicates(),
        final(table)@.to_set() == old(table)@.to_set().remove((key, action)),
        present == old(table)@.to_set().contains((key, action)),
{
    let n = table.len();
    for i in 0..n
        invariant
            n == table@.len(),
            table@ == old(table)@,
            table@.no_duplicates(),
            forall|j: int| 0 <= j < i ==> table@[j] != (key, action),
    {
        let (k, a) = table[i];
        if k == key && a == action {
            proof {
                assert(table@.to_set().contains((key, action)));
                lemma_remove_to_set(table@, i as int);
            }
            table.remove(i);
            return true;
        }
    }
    proof {
        assert(!table@.contains((key, action)));
        assert(table@.to_set() =~= table@.to_set().remove((key, action)));
    }
    false
}

/// The actions bound to `key`, as a duplicate-free list.
pub fn resolve_pairs(table: &Vec<(i32, u32)>, key: i32) -> (r: Vec<u32>)
    ensures
        r@.no_duplicates(),
        forall|a: u32| r@.contains(a) <==> table@.to_set().contains((key, a)),
{
    let mut r: Vec<u32> = Vec::new();
    append_resolved(&mut r, table, key);
    r
}

/// Whether one of the first `upto` entries of `table` is `(key, a)`.
spec fn table_binds(table: Seq<(i32, u32)>, upto: int, key: i32, a: u32) -> bool {
    exists|j: int| #![trigger table[j]] 0 <= j < upto && table[j] == (key, a)
}

/// Appends to `out` every action that `table` binds to `key` and that
/// `out` does not already hold.
pub fn append_resolved(out: &mut Vec<u32>, table: &Vec<(i32, u32)>, key: i32)
    requires
        old(out)@.no_duplicates(),
    ensures
        final(out)@.no_duplicates(),
        forall|a: u32|
            final(out)@.contains(a) <==> old(out)@.contains(a) || table@.to_set().contains(
                (key, a),
            ),
{
    let ghost base = old(out)@;
    let n = table.len();
    for i in 0..n
        invariant
            n == table@.len(),
            out@.no_duplicates(),
            forall|a: u32| #![trigger out@.contains(a)]
                out@.contains(a) <==> base.contains(a) || table_binds(table@, i as int, key, a),
    {
        let ghost pre = out@;
        let (k, a) = table[i];
        proof {
            assert(table@[i as int] == (k, a));
        }
        if k == key {
            let already = contains_action(out, a);
            if !already {
                proof {
                    lemma_push_to_set(pre, a);
                }
                out.push(a);
                proof {
                    assert forall|b: u32| #![trigger out@.contains(b)]
                        out@.contains(b) <==> base.contains(b) || table_binds(
                        table@,
                        i + 1,
                        key,
                        b,
                    ) by {
                        assert(pre.contains(b) <==> base.contains(b) || table_binds(
                            table@,
                            i as int,
                            key,
                            b,
                        ));
                        if out@.contains(b) && !pre.contains(b) {
                            assert(b == a);
                            assert(table@[i as int] == (key, b));
                            assert(table_binds(table@, i + 1, key, b));
                        }
                        if pre.contains(b) {
                            assert(out@.contains(b));
                            if !base.contains(b) {
                                let j = choose|j: int|
                                    #![trigger table@[j]]
                                    0 <= j < i && table@[j] == (key, b);
                                assert(table_binds(table@, i + 1, key, b));
                            }
                        }
                        if table_binds(table@, i + 1, key, b) {
                            let j = choose|j: int|
                                #![trigger table@[j]]
                                0 <= j < i + 1 && table@[j] == (key, b);
                            if j < i {
                                assert(table_binds(table@, i as int, key, b));
                                assert(pre.contains(b));
                            } else {
                                assert(b == a);
                                assert(out@.contains(a));
                            }
                        }
                    }
                }
            } else {
                proof {
                    assert(pre.contains(a));
                    assert forall|b: u32| #![trigger out@.contains(b)]
                        out@.contains(b) <==> base.contains(b) || table_binds(
                        table@,
                        i + 1,
                        key,
                        b,
                    ) by {
                        assert(pre.contains(b) <==> base.contains(b) || table_binds(
                            table@,
                            i as int,
                            key,
                            b,
                        ));
                        if pre.contains(b) && !base.contains(b) {
                            let j = choose|j: int|
                                #![trigger table@[j]]
                                0 <= j < i && table@[j] == (key, b);
                            assert(table_binds(table@, i + 1, key, b));
                        }
                        if table_binds(table@, i + 1, key, b) {
                            let j = choose|j: int|
                                #![trigger table@[j]]
                                0 <= j < i + 1 && table@[j] == (key, b);
                            if j < i {
                                assert(table_binds(table@, i as int, key, b));
                            } else {
                                assert(b == a);
                            }
                        }
                    }
                }
            }
        } else {
            proof {
                assert forall|b: u32| #![trigger out@.contains(b)]
                    out@.contains(b) <==> base.contains(b) || table_binds(
                    table@,
                    i + 1,
                    key,
                    b,
                ) by {
                    assert(out@.contains(b) <==> base.contains(b) || table_binds(
                        table@,
                        i as int,
                        key,
                        b,
                    ));
                    if table_binds(table@, i + 1, key, b) {
                        let j = choose|j: int|
                            #![trigger table@[j]]
                            0 <= j < i + 1 && table@[j] == (key, b);
                        assert(j < i);
                        assert(table_binds(table@, i as int, key, b));
                    }
                    if table_binds(table@, i as int, key, b) {
                        let j = choose|j: int|
                            #![trigger table@[j]]
                            0 <= j < i && table@[j] == (key, b);
                        assert(table_binds(table@, i + 1, key, b));
                    }
                }
            }
        }
    }
    proof {
        assert forall|a: u32|
            out@.contains(a) implies base.contains(a) || table@.to_set().contains((key, a)) by {
            if !base.contains(a) {
                assert(table_binds(table@, n as int, key, a));
                let j = choose|j: int| #![trigger table@[j]] 0 <= j < n && table@[j] == (key, a);
                assert(table@.contains((key, a)));
            }
        }
        assert forall|a: u32|
            base.contains(a) || table@.to_set().contains((key, a)) implies out@.contains(a) by {
            if !base.contains(a) {
                assert(table@.contains((key, a)));
                let j = choose|j: int| 0 <= j < table@.len() && table@[j] == (key, a);
                assert(table@[j] == (key, a));
                assert(table_binds(table@, n as int, key, a));
            }
        }
    }
}

/// Whether `v` holds `a`.
pub fn contains_action(v: &Vec<u32>, a: u32) -> (r: bool)
    ensures
        r == v@.contains(a),
{
    let n = v.len();
    for i in 0..n
        invariant
            n == v@.len(),
            forall|j: int| 0 <= j < i ==> v@[j] != a,
    {
        if v[i] == a {
            return true;
        }
    }
    proof {
        assert(!v@.contains(a));
    }
    false
}

} // verus!
