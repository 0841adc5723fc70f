//! Maps from texts, kept in the order of their keys.

use vstd::prelude::*;
use crate::text;

verus! {

/// Whether `a` comes before `b`: at the first difference the smaller character
/// decides, and a beginning comes before what it begins.
pub open spec fn precedes(a: Seq<char>, b: Seq<char>) -> bool
    decreases a.len(),
{
    if b.len() == 0 {
        false
    } else if a.len() == 0 {
        true
    } else if a[0] != b[0] {
        a[0] < b[0]
    } else {
        precedes(a.drop_first(), b.drop_first())
    }
}

/// No text comes before itself, of two texts one comes first, and coming first
/// passes on.
pub proof fn lemma_precedes(a: Seq<char>, b: Seq<char>, c: Seq<char>)
    ensures
        !precedes(a, a),
        precedes(a, b) ==> !precedes(b, a),
        a != b ==> precedes(a, b) || precedes(b, a),
        precedes(a, b) && precedes(b, c) ==> precedes(a, c),
        !precedes(b, a) && !precedes(c, b) ==> !precedes(c, a),
    decreases a.len() + b.len() + c.len(),
{
    if a.len() == 0 && b.len() == 0 {
        assert(a =~= b);
    }
    if a.len() > 0 && b.len() > 0 && a[0] == b[0] && a != b {
        assert(a.drop_first() != b.drop_first()) by {
            if a.drop_first() == b.drop_first() {
                assert(a =~= seq![a[0]] + a.drop_first());
                assert(b =~= seq![b[0]] + b.drop_first());
            }
        }
    }
    if a.len() > 0 {
        let rest_b = if b.len() > 0 {
            b.drop_first()
        } else {
            b
        };
        let rest_c = if c.len() > 0 {
            c.drop_first()
        } else {
            c
        };
        lemma_precedes(a.drop_first(), rest_b, rest_c);
        if b.len() > 0 {
            lemma_precedes(rest_b, a.drop_first(), rest_c);
        }
    } else if b.len() > 0 || c.len() > 0 {
        let rest_b = if b.len() > 0 {
            b.drop_first()
        } else {
            b
        };
        let rest_c = if c.len() > 0 {
            c.drop_first()
        } else {
            c
        };
        lemma_precedes(a, rest_b, rest_c);
    }
}

/// Whether `a` comes before `b`.
pub fn text_precedes(a: &str, b: &str) -> (r: bool)
    ensures
        r == precedes(a@, b@),
{
    let left = text::chars_of(a);
    let right = text::chars_of(b);
    let mut i: usize = 0;
    assert(left@.skip(0) =~= left@);
    assert(right@.skip(0) =~= right@);
    loop
        invariant
            left@ == a@,
            right@ == b@,
            i <= left.len(),
            i <= right.len(),
            precedes(a@, b@) == precedes(left@.skip(i as int), right@.skip(i as int)),
        decreases left.len() - i,
    {
        if i == right.len() {
            return false;
        }
        if i == left.len() {
            return true;
        }
        assert(left@.skip(i as int)[0] == left@[i as int]);
        assert(right@.skip(i as int)[0] == right@[i as int]);
        if left[i] != right[i] {
            return left[i] < right[i];
        }
        assert(left@.skip(i as int).drop_first() =~= left@.skip(i + 1));
        assert(right@.skip(i as int).drop_first() =~= right@.skip(i + 1));
        i += 1;
    }
}

/// Whether the keys of the entries stand in strictly ascending order.
pub open spec fn ascending<V>(entries: Seq<(Seq<char>, V)>) -> bool {
    forall|i: int, j: int|
        0 <= i < j < entries.len() ==> precedes(#[trigger] entries[i].0, #[trigger] entries[j].0)
}

/// The map that the entries make.
pub open spec fn as_map<V>(entries: Seq<(Seq<char>, V)>) -> Map<Seq<char>, V>
    decreases entries.len(),
{
    if entries.len() == 0 {
        Map::empty()
    } else {
        as_map(entries.drop_last()).insert(entries.last().0, entries.last().1)
    }
}

/// Whether a key has an entry.
pub open spec fn has_key<V>(entries: Seq<(Seq<char>, V)>, key: Seq<char>) -> bool {
    exists|i: int| 0 <= i < entries.len() && (#[trigger] entries[i]).0 == key
}

/// A key is in the map exactly if it has an entry, and an entry's value is the
/// map's.
pub proof fn lemma_as_map<V>(entries: Seq<(Seq<char>, V)>)
    requires
        ascending(entries),
    ensures
        forall|key: Seq<char>| #[trigger]
            as_map(entries).dom().contains(key) <==> has_key(entries, key),
        forall|i: int|
            0 <= i < entries.len() ==> as_map(entries)[(#[trigger] entries[i]).0] == entries[i].1,
    decreases entries.len(),
{
    if entries.len() > 0 {
        let rest = entries.drop_last();
        let last = entries.last();
        assert(entries[entries.len() - 1] == last);
        assert forall|i: int, j: int| 0 <= i < j < rest.len() implies precedes(
            #[trigger] rest[i].0,
            #[trigger] rest[j].0,
        ) by {
            assert(precedes(entries[i].0, entries[j].0));
        }
        lemma_as_map(rest);
        assert forall|key: Seq<char>| #[trigger]
            as_map(entries).dom().contains(key) <==> has_key(entries, key) by {
            if has_key(entries, key) {
                let i = choose|i: int| 0 <= i < entries.len() && (#[trigger] entries[i]).0 == key;
                if i < rest.len() {
                    assert(rest[i].0 == key);
                }
            }
            if has_key(rest, key) {
                let i = choose|i: int| 0 <= i < rest.len() && (#[trigger] rest[i]).0 == key;
                assert(entries[i].0 == key);
            }
            assert(as_map(rest).dom().contains(key) <==> has_key(rest, key));
            if key == last.0 {
                assert(entries[entries.len() - 1].0 == key);
            }
        }
        assert forall|i: int| 0 <= i < entries.len() implies as_map(entries)[(
        #[trigger] entries[i]).0] == entries[i].1 by {
            if i < rest.len() {
                assert(rest[i] == entries[i]);
                lemma_precedes(entries[i].0, last.0, last.0);
            }
        }
    }
}

/// The entries with `value` under `key`: put in the place of the key.
pub open spec fn put<V>(entries: Seq<(Seq<char>, V)>, key: Seq<char>, value: V) -> Seq<
    (Seq<char>, V),
>
    decreases entries.len(),
{
    if entries.len() == 0 || precedes(entries.last().0, key) {
        entries.push((key, value))
    } else if entries.last().0 == key {
        entries.drop_last().push((key, value))
    } else {
        put(entries.drop_last(), key, value).push(entries.last())
    }
}

/// The entries without `key`.
pub open spec fn without<V>(entries: Seq<(Seq<char>, V)>, key: Seq<char>) -> Seq<(Seq<char>, V)>
    decreases entries.len(),
{
    if entries.len() == 0 {
        entries
    } else if entries.last().0 == key {
        without(entries.drop_last(), key)
    } else {
        without(entries.drop_last(), key).push(entries.last())
    }
}

/// Putting keeps the order, and is insertion into the map.
pub proof fn lemma_put<V>(entries: Seq<(Seq<char>, V)>, key: Seq<char>, value: V)
    requires
        ascending(entries),
    ensures
        ascending(put(entries, key, value)),
        as_map(put(entries, key, value)) == as_map(entries).insert(key, value),
        forall|i: int|
            0 <= i < put(entries, key, value).len() ==> (#[trigger] put(entries, key, value)[i]).0
                == key || has_key(entries, put(entries, key, value)[i].0),
    decreases entries.len(),
{
    let result = put(entries, key, value);
    if entries.len() == 0 || precedes(entries.last().0, key) {
        assert forall|i: int, j: int| 0 <= i < j < result.len() implies precedes(
            #[trigger] result[i].0,
            #[trigger] result[j].0,
        ) by {
            if j == entries.len() {
                assert(entries.last() == entries[entries.len() - 1]);
                if i < entries.len() - 1 {
                    assert(precedes(entries[i].0, entries.last().0));
                    lemma_precedes(entries[i].0, entries.last().0, key);
                }
            } else {
                assert(precedes(entries[i].0, entries[j].0));
            }
        }
        assert(result.drop_last() =~= entries);
        assert forall|i: int| 0 <= i < result.len() implies (#[trigger] result[i]).0 == key
            || has_key(entries, result[i].0) by {
            if i < entries.len() {
                assert(entries[i] == result[i]);
            }
        }
    } else {
        let rest = entries.drop_last();
        let last = entries.last();
        assert(last == entries[entries.len() - 1]);
        assert forall|i: int, j: int| 0 <= i < j < rest.len() implies precedes(
            #[trigger] rest[i].0,
            #[trigger] rest[j].0,
        ) by {
            assert(precedes(entries[i].0, entries[j].0));
        }
        lemma_precedes(last.0, key, key);
        if last.0 == key {
            assert(result.drop_last() =~= rest);
            assert forall|i: int, j: int| 0 <= i < j < result.len() implies precedes(
                #[trigger] result[i].0,
                #[trigger] result[j].0,
            ) by {
                assert(precedes(entries[i].0, entries[j].0));
            }
            assert(as_map(result) =~= as_map(entries).insert(key, value));
            assert forall|i: int| 0 <= i < result.len() implies (#[trigger] result[i]).0 == key
                || has_key(entries, result[i].0) by {
                assert(entries[i].0 == result[i].0);
            }
        } else {
            lemma_put(rest, key, value);
            let inner = put(rest, key, value);
            assert(result.drop_last() =~= inner);
            assert forall|i: int| 0 <= i < inner.len() implies precedes(
                (#[trigger] inner[i]).0,
                last.0,
            ) by {
                if inner[i].0 != key {
                    let k = choose|k: int| 0 <= k < rest.len() && (#[trigger] rest[k]).0
                        == inner[i].0;
                    assert(entries[k].0 == inner[i].0);
                    assert(precedes(entries[k].0, entries[entries.len() - 1].0));
                }
            }
            assert forall|i: int, j: int| 0 <= i < j < result.len() implies precedes(
                #[trigger] result[i].0,
                #[trigger] result[j].0,
            ) by {
                if j < inner.len() {
                    assert(precedes(inner[i].0, inner[j].0));
                } else {
                    assert(result[i] == inner[i]);
                }
            }
            assert(as_map(result) =~= as_map(entries).insert(key, value));
            assert forall|i: int| 0 <= i < result.len() implies (#[trigger] result[i]).0 == key
                || has_key(entries, result[i].0) by {
                if i < inner.len() {
                    assert(result[i] == inner[i]);
                    if inner[i].0 != key {
                        let k = choose|k: int| 0 <= k < rest.len() && (#[trigger] rest[k]).0
                            == inner[i].0;
                        assert(entries[k].0 == inner[i].0);
                    }
                }
            }
        }
    }
}

/// Taking out keeps the order, and is removal from the map.
pub proof fn lemma_without<V>(entries: Seq<(Seq<char>, V)>, key: Seq<char>)
    requires
        ascending(entries),
    ensures
        ascending(without(entries, key)),
        as_map(without(entries, key)) == as_map(entries).remove(key),
        forall|i: int|
            0 <= i < without(entries, key).len() ==> has_key(
                entries,
                (#[trigger] without(entries, key)[i]).0,
            ),
        !has_key(without(entries, key), key),
        !has_key(entries, key) ==> without(entries, key) == entries,
    decreases entries.len(),
{
    let result = without(entries, key);
    if entries.len() > 0 {
        let rest = entries.drop_last();
        let last = entries.last();
        assert(last == entries[entries.len() - 1]);
        assert forall|i: int, j: int| 0 <= i < j < rest.len() implies precedes(
            #[trigger] rest[i].0,
            #[trigger] rest[j].0,
        ) by {
            assert(precedes(entries[i].0, entries[j].0));
        }
        lemma_without(rest, key);
        let inner = without(rest, key);
        assert forall|i: int| 0 <= i < inner.len() implies has_key(
            entries,
            (#[trigger] inner[i]).0,
        ) && precedes(inner[i].0, last.0) by {
            let k = choose|k: int| 0 <= k < rest.len() && (#[trigger] rest[k]).0 == inner[i].0;
            assert(entries[k].0 == inner[i].0);
            assert(precedes(entries[k].0, entries[entries.len() - 1].0));
        }
        if !has_key(entries, key) {
            assert(!has_key(rest, key)) by {
                if has_key(rest, key) {
                    let k = choose|k: int| 0 <= k < rest.len() && (#[trigger] rest[k]).0 == key;
                    assert(entries[k].0 == key);
                }
            }
            assert(entries =~= rest.push(last));
        }
        assert(as_map(result) =~= as_map(entries).remove(key)) by {
            if last.0 == key {
            } else {
                assert(result.drop_last() =~= inner);
            }
        }
        if last.0 != key {
            assert forall|i: int, j: int| 0 <= i < j < result.len() implies precedes(
                #[trigger] result[i].0,
                #[trigger] result[j].0,
            ) by {
                if j < inner.len() {
                    assert(precedes(inner[i].0, inner[j].0));
                } else {
                    assert(result[i] == inner[i]);
                }
            }
            assert forall|i: int| 0 <= i < result.len() implies has_key(
                entries,
                (#[trigger] result[i]).0,
            ) by {
                if i < inner.len() {
                    assert(result[i] == inner[i]);
                }
            }
            if has_key(result, key) {
                let k = choose|k: int| 0 <= k < result.len() && (#[trigger] result[k]).0 == key;
                if k < inner.len() {
                    assert(inner[k].0 == key);
                }
            }
        }
    } else {
        assert(as_map(result) =~= as_map(entries).remove(key));
    }
}

/// What holds of every entry and of a new one holds of every entry after the
/// new one is put in.
pub proof fn lemma_put_all<V>(
    entries: Seq<(Seq<char>, V)>,
    key: Seq<char>,
    value: V,
    good: spec_fn((Seq<char>, V)) -> bool,
)
    requires
        forall|i: int| 0 <= i < entries.len() ==> good(#[trigger] entries[i]),
        good((key, value)),
    ensures
        forall|i: int|
            0 <= i < put(entries, key, value).len() ==> good(
                #[trigger] put(entries, key, value)[i],
            ),
    decreases entries.len(),
{
    let result = put(entries, key, value);
    if entries.len() == 0 || precedes(entries.last().0, key) || entries.last().0 == key {
        assert forall|i: int| 0 <= i < result.len() implies good(#[trigger] result[i]) by {
            if i < result.len() - 1 {
                assert(result[i] == entries[i]);
            }
        }
    } else {
        let rest = entries.drop_last();
        assert forall|i: int| 0 <= i < rest.len() implies good(#[trigger] rest[i]) by {
            assert(rest[i] == entries[i]);
        }
        lemma_put_all(rest, key, value, good);
        let inner = put(rest, key, value);
        assert forall|i: int| 0 <= i < result.len() implies good(#[trigger] result[i]) by {
            if i < inner.len() {
                assert(result[i] == inner[i]);
            } else {
                assert(result[i] == entries[entries.len() - 1]);
            }
        }
    }
}

/// What holds of every entry holds of every entry that is left.
pub proof fn lemma_without_all<V>(
    entries: Seq<(Seq<char>, V)>,
    key: Seq<char>,
    good: spec_fn((Seq<char>, V)) -> bool,
)
    requires
        forall|i: int| 0 <= i < entries.len() ==> good(#[trigger] entries[i]),
    ensures
        forall|i: int|
            0 <= i < without(entries, key).len() ==> good(#[trigger] without(entries, key)[i]),
    decreases entries.len(),
{
    if entries.len() > 0 {
        let rest = entries.drop_last();
        assert forall|i: int| 0 <= i < rest.len() implies good(#[trigger] rest[i]) by {
            assert(rest[i] == entries[i]);
        }
        lemma_without_all(rest, key, good);
        let result = without(entries, key);
        let inner = without(rest, key);
        assert forall|i: int| 0 <= i < result.len() implies good(#[trigger] result[i]) by {
            if i < inner.len() {
                assert(result[i] == inner[i]);
            } else {
                assert(result[i] == entries[entries.len() - 1]);
            }
        }
    }
}

proof fn lemma_last<V>(a: Seq<(Seq<char>, V)>)
    requires
        ascending(a),
        a.len() > 0,
    ensures
        ascending(a.drop_last()),
        as_map(a).dom().contains(a.last().0),
        as_map(a)[a.last().0] == a.last().1,
        as_map(a.drop_last()) == as_map(a).remove(a.last().0),
        forall|key: Seq<char>| #[trigger]
            as_map(a).dom().contains(key) ==> key == a.last().0 || precedes(key, a.last().0),
{
    let rest = a.drop_last();
    let last = a.last();
    assert(a[a.len() - 1] == last);
    assert forall|i: int, j: int| 0 <= i < j < rest.len() implies precedes(
        #[trigger] rest[i].0,
        #[trigger] rest[j].0,
    ) by {
        assert(precedes(a[i].0, a[j].0));
    }
    lemma_as_map(rest);
    assert forall|key: Seq<char>| #[trigger] as_map(rest).dom().contains(key) implies precedes(
        key,
        last.0,
    ) by {
        assert(has_key(rest, key));
        let k = choose|k: int| 0 <= k < rest.len() && (#[trigger] rest[k]).0 == key;
        assert(precedes(a[k].0, a[a.len() - 1].0));
    }
    lemma_precedes(last.0, last.0, last.0);
    assert(!as_map(rest).dom().contains(last.0));
    assert(as_map(rest) =~= as_map(a).remove(last.0));
}

/// Entries in order that make the same map are the same.
pub proof fn lemma_same_map<V>(a: Seq<(Seq<char>, V)>, b: Seq<(Seq<char>, V)>)
    requires
        ascending(a),
        ascending(b),
        as_map(a) == as_map(b),
    ensures
        a == b,
    decreases a.len(),
{
    if a.len() == 0 {
        if b.len() > 0 {
            lemma_last(b);
            assert(as_map(a).dom().contains(b.last().0));
        }
        assert(a =~= b);
    } else if b.len() == 0 {
        lemma_last(a);
        assert(as_map(b).dom().contains(a.last().0));
    } else {
        lemma_last(a);
        lemma_last(b);
        lemma_precedes(a.last().0, b.last().0, b.last().0);
        assert(as_map(b).dom().contains(a.last().0));
        assert(as_map(a).dom().contains(b.last().0));
        assert(a.last().0 == b.last().0);
        lemma_same_map(a.drop_last(), b.drop_last());
        assert(a =~= a.drop_last().push(a.last()));
        assert(b =~= b.drop_last().push(b.last()));
    }
}

/// The entries with what their values are.
pub open spec fn deep<V: View>(entries: Seq<(Seq<char>, V)>) -> Seq<(Seq<char>, V::V)> {
    Seq::new(entries.len(), |i: int| (entries[i].0, entries[i].1@))
}

/// Looking at what the values are commutes with putting.
pub proof fn lemma_deep_put<V: View>(entries: Seq<(Seq<char>, V)>, key: Seq<char>, value: V)
    ensures
        deep(put(entries, key, value)) == put(deep(entries), key, value@),
    decreases entries.len(),
{
    let wide = deep(entries);
    if entries.len() == 0 || precedes(entries.last().0, key) {
        assert(deep(put(entries, key, value)) =~= put(wide, key, value@));
    } else {
        assert(deep(entries.drop_last()) =~= wide.drop_last());
        if entries.last().0 != key {
            lemma_deep_put(entries.drop_last(), key, value);
        }
        assert(deep(put(entries, key, value)) =~= put(wide, key, value@));
    }
}

/// Looking at what the values are commutes with taking out.
pub proof fn lemma_deep_without<V: View>(entries: Seq<(Seq<char>, V)>, key: Seq<char>)
    ensures
        deep(without(entries, key)) == without(deep(entries), key),
    decreases entries.len(),
{
    if entries.len() > 0 {
        assert(deep(entries.drop_last()) =~= deep(entries).drop_last());
        lemma_deep_without(entries.drop_last(), key);
        assert(deep(without(entries, key)) =~= without(deep(entries), key));
    } else {
        assert(deep(without(entries, key)) =~= without(deep(entries), key));
    }
}

/// Looking at what the values are keeps the keys.
pub proof fn lemma_deep_map<V: View>(entries: Seq<(Seq<char>, V)>)
    ensures
        as_map(deep(entries)).dom() == as_map(entries).dom(),
        forall|key: Seq<char>|
            as_map(entries).dom().contains(key) ==> #[trigger] as_map(deep(entries))[key]
                == as_map(entries)[key]@,
        ascending(entries) ==> ascending(deep(entries)),
    decreases entries.len(),
{
    if entries.len() > 0 {
        assert(deep(entries.drop_last()) =~= deep(entries).drop_last());
        lemma_deep_map(entries.drop_last());
    }
    assert(as_map(deep(entries)).dom() =~= as_map(entries).dom());
}

/// A map from texts whose entries stand in the order of their keys.
pub struct SortedMap<V> {
    entries: Vec<(String, V)>,
}

/// The entries with the characters of their keys.
pub closed spec fn pairs<V>(entries: Seq<(String, V)>) -> Seq<(Seq<char>, V)> {
    Seq::new(entries.len(), |i: int| (entries[i].0@, entries[i].1))
}

impl<V> View for SortedMap<V> {
    type V = Seq<(Seq<char>, V)>;

    closed spec fn view(&self) -> Seq<(Seq<char>, V)> {
        pairs(self.entries@)
    }
}

proof fn lemma_put_at<V>(entries: Seq<(Seq<char>, V)>, key: Seq<char>, value: V, at: int)
    requires
        ascending(entries),
        0 <= at <= entries.len(),
        at > 0 ==> !precedes(key, entries[at - 1].0),
        forall|k: int| at <= k < entries.len() ==> precedes(key, (#[trigger] entries[k]).0),
    ensures
        put(entries, key, value) == (if at > 0 && entries[at - 1].0 == key {
            entries.update(at - 1, (key, value))
        } else {
            entries.insert(at, (key, value))
        }),
    decreases entries.len(),
{
    let result = put(entries, key, value);
    if entries.len() > 0 {
        let rest = entries.drop_last();
        let last = entries.last();
        assert(last == entries[entries.len() - 1]);
        lemma_precedes(last.0, key, key);
        lemma_precedes(key, last.0, last.0);
        if at < entries.len() {
            assert forall|i: int, j: int| 0 <= i < j < rest.len() implies precedes(
                #[trigger] rest[i].0,
                #[trigger] rest[j].0,
            ) by {
                assert(precedes(entries[i].0, entries[j].0));
            }
            assert forall|k: int| at <= k < rest.len() implies precedes(
                key,
                (#[trigger] rest[k]).0,
            ) by {
                assert(precedes(key, entries[k].0));
            }
            assert(at > 0 ==> rest[at - 1] == entries[at - 1]);
            lemma_put_at(rest, key, value, at);
        } else {
        }
    }
    assert(result =~= (if at > 0 && entries[at - 1].0 == key {
        entries.update(at - 1, (key, value))
    } else {
        entries.insert(at, (key, value))
    }));
}

proof fn lemma_without_at<V>(entries: Seq<(Seq<char>, V)>, key: Seq<char>, at: int)
    requires
        ascending(entries),
        0 <= at < entries.len(),
        entries[at].0 == key,
    ensures
        without(entries, key) == entries.remove(at),
    decreases entries.len(),
{
    let rest = entries.drop_last();
    let last = entries.last();
    assert(last == entries[entries.len() - 1]);
    assert forall|i: int, j: int| 0 <= i < j < rest.len() implies precedes(
        #[trigger] rest[i].0,
        #[trigger] rest[j].0,
    ) by {
        assert(precedes(entries[i].0, entries[j].0));
    }
    if at < entries.len() - 1 {
        lemma_without_at(rest, key, at);
        lemma_precedes(entries[at].0, last.0, last.0);
        assert(precedes(entries[at].0, last.0));
        assert(without(entries, key) =~= entries.remove(at));
    } else {
        assert(!has_key(rest, key)) by {
            if has_key(rest, key) {
                let k = choose|k: int| 0 <= k < rest.len() && (#[trigger] rest[k]).0 == key;
                assert(entries[k].0 == key);
                assert(precedes(entries[k].0, entries[at].0));
                lemma_precedes(key, key, key);
            }
        }
        lemma_without(rest, key);
        assert(without(entries, key) =~= entries.remove(at));
    }
}

impl<V> SortedMap<V> {
    #[verifier::type_invariant]
    spec fn in_order(self) -> bool {
        ascending(pairs(self.entries@))
    }

    /// The map without entries.
    pub fn new() -> (map: Self)
        ensures
            map@ == Seq::<(Seq<char>, V)>::empty(),
    {
        let map = SortedMap { entries: Vec::new() };
        assert(map@ =~= Seq::<(Seq<char>, V)>::empty());
        map
    }

    /// The number of entries.
    pub fn len(&self) -> (n: usize)
        ensures
            n == self@.len(),
            ascending(self@),
    {
        proof {
            use_type_invariant(self);
        }
        self.entries.len()
    }

    /// Whether there is no entry.
    pub fn is_empty(&self) -> (r: bool)
        ensures
            r == (self@.len() == 0),
    {
        self.entries.len() == 0
    }

    /// The key of the `i`-th entry.
    pub fn key_at(&self, i: usize) -> (key: &String)
        requires
            i < self@.len(),
        ensures
            key@ == self@[i as int].0,
            ascending(self@),
    {
        proof {
            use_type_invariant(self);
        }
        &self.entries[i].0
    }

    /// The value of the `i`-th entry.
    pub fn value_at(&self, i: usize) -> (value: &V)
        requires
            i < self@.len(),
        ensures
            *value == self@[i as int].1,
            ascending(self@),
    {
        proof {
            use_type_invariant(self);
        }
        &self.entries[i].1
    }

    /// The place behind the entries whose keys do not come after `key`.
    fn place(&self, key: &str) -> (at: usize)
        ensures
            at <= self.entries@.len(),
            at > 0 ==> !precedes(key@, pairs(self.entries@)[at - 1].0),
            forall|k: int|
                at <= k < self.entries@.len() ==> precedes(
                    key@,
                    (#[trigger] pairs(self.entries@)[k]).0,
                ),
    {
        let mut at: usize = self.entries.len();
        while at > 0 && text_precedes(key, self.entries[at - 1].0.as_str())
            invariant
                at <= self.entries@.len(),
                forall|k: int|
                    at <= k < self.entries@.len() ==> precedes(
                        key@,
                        (#[trigger] pairs(self.entries@)[k]).0,
                    ),
            decreases at,
        {
            at -= 1;
        }
        at
    }

    /// The place of `key`, if it has an entry.
    pub fn find(&self, key: &str) -> (at: Option<usize>)
        ensures
            match at {
                Some(i) => i < self@.len() && self@[i as int].0 == key@ && as_map(self@)[key@]
                    == self@[i as int].1 && as_map(self@).dom().contains(key@),
                None => !has_key(self@, key@) && !as_map(self@).dom().contains(key@),
            },
            ascending(self@),
    {
        proof {
            use_type_invariant(self);
            lemma_as_map(self@);
        }
        let at: usize = self.place(key);
        if at > 0 && text::same_text(self.entries[at - 1].0.as_str(), key) {
            assert(self@[at - 1].0 == key@);
            return Some(at - 1);
        }
        proof {
            assert forall|i: int| 0 <= i < self@.len() implies (#[trigger] self@[i]).0 != key@ by {
                if i >= at {
                    lemma_precedes(key@, self@[i].0, key@);
                } else if i == at - 1 {
                } else {
                    assert(precedes(self@[i].0, self@[at - 1].0));
                    lemma_precedes(self@[i].0, self@[at - 1].0, key@);
                    if self@[i].0 == key@ {
                        assert(false);
                    }
                }
            }
        }
        None
    }

    /// The value under `key`.
    pub fn get(&self, key: &str) -> (value: Option<&V>)
        ensures
            match value {
                Some(v) => as_map(self@).dom().contains(key@) && as_map(self@)[key@] == *v,
                None => !as_map(self@).dom().contains(key@),
            },
    {
        match self.find(key) {
            Some(i) => Some(&self.entries[i].1),
            None => None,
        }
    }

    /// Puts `value` under `key`.
    pub fn insert(&mut self, key: &str, value: V)
        ensures
            final(self)@ == put(old(self)@, key@, value),
            as_map(final(self)@) == as_map(old(self)@).insert(key@, value),
            ascending(old(self)@),
            ascending(final(self)@),
    {
        proof {
            use_type_invariant(&*self);
            lemma_put(self@, key@, value);
        }
        let at: usize = self.place(key);
        proof {
            lemma_put_at(self@, key@, value, at as int);
        }
        let replace = at > 0 && text::same_text(self.entries[at - 1].0.as_str(), key);
        let mut entries: Vec<(String, V)> = Vec::new();
        std::mem::swap(&mut entries, &mut self.entries);
        let ghost before = entries@;
        if replace {
            entries[at - 1] = (key.to_string(), value);
            assert(pairs(entries@) =~= pairs(before).update(at - 1, (key@, value)));
        } else {
            entries.insert(at, (key.to_string(), value));
            assert(pairs(entries@) =~= pairs(before).insert(at as int, (key@, value)));
        }
        self.entries = entries;
    }

    /// Takes the entry of `key` out.
    pub fn remove(&mut self, key: &str) -> (removed: Option<V>)
        ensures
            final(self)@ == without(old(self)@, key@),
            as_map(final(self)@) == as_map(old(self)@).remove(key@),
            ascending(old(self)@),
            ascending(final(self)@),
            match removed {
                Some(v) => as_map(old(self)@).dom().contains(key@) && as_map(old(self)@)[key@] == v,
                None => !as_map(old(self)@).dom().contains(key@),
            },
    {
        proof {
            use_type_invariant(&*self);
            lemma_without(self@, key@);
        }
        match self.find(key) {
            None => None,
            Some(at) => {
                proof {
                    lemma_without_at(self@, key@, at as int);
                }
                let mut entries: Vec<(String, V)> = Vec::new();
                std::mem::swap(&mut entries, &mut self.entries);
                let ghost before = entries@;
                let (_, value) = entries.remove(at);
                assert(pairs(entries@) =~= pairs(before).remove(at as int));
                self.entries = entries;
                Some(value)
            },
        }
    }
}

/// Copies a map from texts to texts.
pub fn copy_texts_map(map: &SortedMap<String>) -> (copy: SortedMap<String>)
    ensures
        deep(copy@) == deep(map@),
{
    let mut copy: SortedMap<String> = SortedMap::new();
    let n: usize = map.len();
    let mut i: usize = 0;
    while i < n
        invariant
            i <= n == map@.len(),
            ascending(map@),
            deep(copy@) == deep(map@).take(i as int),
        decreases n - i,
    {
        let ghost before = copy@;
        let value = map.value_at(i).clone();
        copy.insert(map.key_at(i).as_str(), value);
        proof {
            lemma_deep_put(before, map@[i as int].0, value);
            if i > 0 {
                assert(deep(before).last() == deep(map@)[i - 1]);
                assert(precedes(map@[i - 1].0, map@[i as int].0));
            }
        }
        i += 1;
        assert(deep(copy@) =~= deep(map@).take(i as int));
    }
    assert(deep(map@).take(n as int) =~= deep(map@));
    copy
}

/// Keys are in the order of a dictionary: the first character in which they differ decides, and
/// a key comes before what it begins.
pub proof fn lemma_dictionary(
    common: Seq<char>,
    x: char,
    y: char,
    a: Seq<char>,
    b: Seq<char>,
)
    ensures
        precedes(common + seq![x] + a, common + seq![y] + b) == (if x == y {
            precedes(a, b)
        } else {
            x < y
        }),
        precedes(common, common + seq![x] + a),
        !precedes(common + seq![x] + a, common),
    decreases common.len(),
{
    let left = common + seq![x] + a;
    let right = common + seq![y] + b;
    if common.len() == 0 {
        assert(left.drop_first() =~= a);
        assert(right.drop_first() =~= b);
    } else {
        let less = common.drop_first();
        lemma_dictionary(less, x, y, a, b);
        assert(left.drop_first() =~= less + seq![x] + a);
        assert(right.drop_first() =~= less + seq![y] + b);
    }
}

} // verus!
