//! Tables from text keys to values: a vector of entries searched in
//! order, where the first entry for a key is the one that counts.

use vstd::prelude::*;

verus! {

/// The entries of a table, each key taken as its characters.
pub open spec fn entry_views<V>(t: Seq<(String, V)>) -> Seq<(Seq<char>, V)> {
    t.map_values(|e: (String, V)| (e.0@, e.1))
}

/// The value of the first entry for `k`, if any.
pub open spec fn first_match<V>(t: Seq<(Seq<char>, V)>, k: Seq<char>) -> Option<V>
    decreases t.len(),
{
    if t.len() == 0 {
        Option::None
    } else if t[0].0 == k {
        Option::Some(t[0].1)
    } else {
        first_match(t.drop_first(), k)
    }
}

/// The table as a map from key to value.
pub open spec fn table_map<V>(t: Seq<(Seq<char>, V)>) -> Map<Seq<char>, V> {
    Map::new(|k: Seq<char>| first_match(t, k) is Some, |k: Seq<char>| first_match(t, k)->0)
}

pub proof fn lemma_first_match_at<V>(t: Seq<(Seq<char>, V)>, k: Seq<char>, i: int)
    requires
        0 <= i < t.len(),
        t[i].0 == k,
        forall|j: int| 0 <= j < i ==> t[j].0 != k,
    ensures
        first_match(t, k) == Option::Some(t[i].1),
    decreases i,
{
    if i > 0 {
        lemma_first_match_at(t.drop_first(), k, i - 1);
    }
}

pub proof fn lemma_first_match_absent<V>(t: Seq<(Seq<char>, V)>, k: Seq<char>)
    requires
        forall|j: int| 0 <= j < t.len() ==> t[j].0 != k,
    ensures
        first_match(t, k) == Option::<V>::None,
    decreases t.len(),
{
    if t.len() > 0 {
        lemma_first_match_absent(t.drop_first(), k);
    }
}

pub proof fn lemma_first_match_same<V>(t: Seq<(Seq<char>, V)>, u: Seq<(Seq<char>, V)>, k: Seq<char>)
    requires
        t.len() == u.len(),
        forall|j: int| 0 <= j < t.len() ==> (t[j].0 == k) == (u[j].0 == k),
        forall|j: int| 0 <= j < t.len() && t[j].0 == k ==> t[j].1 == u[j].1,
    ensures
        first_match(t, k) == first_match(u, k),
    decreases t.len(),
{
    if t.len() > 0 {
        lemma_first_match_same(t.drop_first(), u.drop_first(), k);
    }
}

pub proof fn lemma_first_match_push<V>(t: Seq<(Seq<char>, V)>, e: (Seq<char>, V), k: Seq<char>)
    ensures
        first_match(t.push(e), k) == (if first_match(t, k) is Some {
            first_match(t, k)
        } else if e.0 == k {
            Option::Some(e.1)
        } else {
            Option::<V>::None
        }),
    decreases t.len(),
{
    if t.len() > 0 {
        assert(t.push(e).drop_first() =~= t.drop_first().push(e));
        lemma_first_match_push(t.drop_first(), e, k);
        assert(t.push(e)[0] == t[0]);
    } else {
        assert(t.push(e)[0] == e);
        assert(t.push(e).drop_first().len() == 0);
        assert(first_match(t.push(e).drop_first(), k) is None);
    }
}

/// Index of the first entry for `key`.
pub fn table_find<V>(table: &Vec<(String, V)>, key: &String) -> (res: Option<usize>)
    ensures
        match res {
            Option::Some(i) => i < table@.len() && table@[i as int].0@ == key@ && forall|j: int|
                0 <= j < i ==> table@[j].0@ != key@,
            Option::None => forall|j: int| 0 <= j < table@.len() ==> table@[j].0@ != key@,
        },
{
    let mut i: usize = 0;
    while i < table.len()
        invariant
            i <= table@.len(),
            forall|j: int| 0 <= j < i ==> table@[j].0@ != key@,
        decreases table.len() - i,
    {
        if table[i].0 == *key {
            return Option::Some(i);
        }
        i = i + 1;
    }
    Option::None
}

/// The value the table holds for `key`.
pub fn table_get<V: Copy>(table: &Vec<(String, V)>, key: &String) -> (res: Option<V>)
    ensures
        res == first_match(entry_views(table@), key@),
{
    let ghost t = entry_views(table@);
    match table_find(table, key) {
        Option::Some(i) => {
            proof {
                lemma_first_match_at(t, key@, i as int);
            }
            Option::Some(table[i].1)
        },
        Option::None => {
            proof {
                lemma_first_match_absent(t, key@);
            }
            Option::None
        },
    }
}

/// Set the value of `key`, adding an entry when it has none.
pub fn table_insert<V>(table: &mut Vec<(String, V)>, key: String, st: V)
    ensures
        table_map(entry_views(final(table)@)) == table_map(entry_views(old(table)@)).insert(key@, st),
{
    let ghost t = entry_views(table@);
    let ghost k = key@;
    match table_find(table, &key) {
        Option::Some(i) => {
            table.set(i, (key, st));
            proof {
                let u = entry_views(table@);
                assert forall|q: Seq<char>| q != k implies first_match(u, q) == first_match(t, q) by {
                    lemma_first_match_same(u, t, q);
                }
                lemma_first_match_at(u, k, i as int);
                assert(table_map(u) =~= table_map(t).insert(k, st));
            }
        },
        Option::None => {
            table.push((key, st));
            proof {
                let u = entry_views(table@);
                assert(u =~= t.push((k, st)));
                lemma_first_match_absent(t, k);
                assert forall|q: Seq<char>| #[trigger] first_match(u, q) == (if q == k {
                    Option::Some(st)
                } else {
                    first_match(t, q)
                }) by {
                    lemma_first_match_push(t, (k, st), q);
                }
                assert(table_map(u) =~= table_map(t).insert(k, st));
            }
        },
    }
}


/// A table with text values, both keys and values taken as characters.
pub open spec fn text_table_map(t: Seq<(String, String)>) -> Map<Seq<char>, Seq<char>> {
    table_map(t.map_values(|e: (String, String)| (e.0@, e.1@)))
}

/// The text the table holds for `key`.
pub fn text_table_get(table: &Vec<(String, String)>, key: &String) -> (res: Option<String>)
    ensures
        match res {
            Option::Some(v) => text_table_map(table@).contains_key(key@) && v@ == text_table_map(table@)[key@],
            Option::None => !text_table_map(table@).contains_key(key@),
        },
{
    let ghost t = table@.map_values(|e: (String, String)| (e.0@, e.1@));
    let mut i: usize = 0;
    while i < table.len()
        invariant
            i <= table@.len(),
            t == table@.map_values(|e: (String, String)| (e.0@, e.1@)),
            forall|j: int| 0 <= j < i ==> table@[j].0@ != key@,
        decreases table.len() - i,
    {
        if table[i].0 == *key {
            proof {
                lemma_first_match_at(t, key@, i as int);
            }
            return Option::Some(table[i].1.clone());
        }
        i = i + 1;
    }
    proof {
        lemma_first_match_absent(t, key@);
    }
    Option::None
}

/// Set the text of `key`, adding an entry when it has none.
pub fn text_table_insert(table: &mut Vec<(String, String)>, key: String, value: String)
    ensures
        text_table_map(final(table)@) == text_table_map(old(table)@).insert(key@, value@),
{
    let ghost t = old(table)@.map_values(|e: (String, String)| (e.0@, e.1@));
    let ghost k = key@;
    let ghost v = value@;
    let mut i: usize = 0;
    while i < table.len()
        invariant
            i <= table@.len(),
            table@ == old(table)@,
            k == key@,
            v == value@,
            t == table@.map_values(|e: (String, String)| (e.0@, e.1@)),
            forall|j: int| 0 <= j < i ==> table@[j].0@ != key@,
        decreases table.len() - i,
    {
        if table[i].0 == key {
            let ghost before = table@;
            table.set(i, (key, value));
            proof {
                let u = table@.map_values(|e: (String, String)| (e.0@, e.1@));
                assert(table@ == before.update(i as int, table@[i as int]));
                assert(u[i as int] == (k, v));
                assert(forall|j: int| 0 <= j < u.len() && j != i ==> u[j] == t[j]);
                assert forall|q: Seq<char>| q != k implies first_match(u, q) == first_match(t, q) by {
                    lemma_first_match_same(u, t, q);
                }
                lemma_first_match_at(u, k, i as int);
                assert(table_map(u) =~= table_map(t).insert(k, v));
            }
            return;
        }
        i = i + 1;
    }
    table.push((key, value));
    proof {
        let u = table@.map_values(|e: (String, String)| (e.0@, e.1@));
        assert(u =~= t.push((k, v)));
        lemma_first_match_absent(t, k);
        assert forall|q: Seq<char>| #[trigger] first_match(u, q) == (if q == k {
            Option::Some(v)
        } else {
            first_match(t, q)
        }) by {
            lemma_first_match_push(t, (k, v), q);
        }
        assert(table_map(u) =~= table_map(t).insert(k, v));
    }
}

} // verus!
