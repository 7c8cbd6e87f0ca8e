//! Grouping by ordered keys, as the analyses group by `BTreeMap` keys: by
//! team, by time bucket, by cell, by phase cell, and by map name. Groups come
//! in ascending key order and list their members in input order.
use vstd::prelude::*;

verus! {

/// An ordered integer key: a team or bucket `(k, 0, 0)`, a cell
/// `(x, y, 0)`, or a phase cell `(phase, x, y)`.
pub type Key3 = (i64, i64, i64);

/// The order of `BTreeMap` keys that are integer triples.
pub open spec fn key_lt(a: Key3, b: Key3) -> bool {
    ||| a.0 < b.0
    ||| (a.0 == b.0 && a.1 < b.1)
    ||| (a.0 == b.0 && a.1 == b.1 && a.2 < b.2)
}

/// The order of `String`: character by character, a proper prefix first.
pub open spec fn text_lt(a: Seq<char>, b: Seq<char>) -> bool
    decreases a.len(),
{
    if a.len() == 0 {
        b.len() > 0
    } else if b.len() == 0 {
        false
    } else if a[0] != b[0] {
        (a[0] as int) < (b[0] as int)
    } else {
        text_lt(a.drop_first(), b.drop_first())
    }
}

/// The positions below `n` whose element is `key`, in ascending order.
pub open spec fn positions_of<K>(items: Seq<K>, key: K, n: nat) -> Seq<usize>
    decreases n,
{
    if n == 0 {
        Seq::empty()
    } else {
        let rest = positions_of(items, key, (n - 1) as nat);
        if items[n - 1] == key {
            rest.push((n - 1) as usize)
        } else {
            rest
        }
    }
}

/// The members of a group of integer keys.
#[derive(Debug, PartialEq, Eq)]
pub struct KeyGroup {
    pub key: Key3,
    pub members: Vec<usize>,
}

/// The members of a group of names.
#[derive(Debug, Clone, PartialEq, Eq)]
pub struct NameGroup {
    pub name: String,
    pub members: Vec<usize>,
}

/// The keys of the groups, in order.
pub open spec fn group_keys(groups: Seq<KeyGroup>) -> Seq<Key3> {
    groups.map_values(|g: KeyGroup| g.key)
}

/// The names of the groups, in order.
pub open spec fn group_names(groups: Seq<NameGroup>) -> Seq<Seq<char>> {
    groups.map_values(|g: NameGroup| g.name@)
}

/// Whether `groups` is the grouping of `keys`: one group per distinct key, in
/// ascending key order, each listing the positions of its key in order.
pub open spec fn groups_by_key(groups: Seq<KeyGroup>, keys: Seq<Key3>) -> bool {
    &&& forall|a: int, b: int|
        0 <= a < b < groups.len() ==> key_lt(#[trigger] groups[a].key, #[trigger] groups[b].key)
    &&& forall|g: int|
        0 <= g < groups.len() ==> (#[trigger] groups[g]).members@ == positions_of(
            keys,
            groups[g].key,
            keys.len(),
        )
    &&& forall|k: Key3| #[trigger] keys.contains(k) <==> group_keys(groups).contains(k)
}

/// Whether `groups` is the grouping of `names`: one group per distinct name,
/// in ascending `String` order, each listing the positions of its name in
/// order.
pub open spec fn groups_by_name(groups: Seq<NameGroup>, names: Seq<Seq<char>>) -> bool {
    &&& forall|a: int, b: int|
        0 <= a < b < groups.len() ==> text_lt(#[trigger] groups[a].name@, #[trigger] groups[b].name@)
    &&& forall|g: int|
        0 <= g < groups.len() ==> (#[trigger] groups[g]).members@ == positions_of(
            names,
            groups[g].name@,
            names.len(),
        )
    &&& forall|t: Seq<char>| #[trigger] names.contains(t) <==> group_names(groups).contains(t)
}

proof fn lemma_text_lt_irreflexive(a: Seq<char>)
    ensures
        !text_lt(a, a),
    decreases a.len(),
{
    if a.len() > 0 {
        lemma_text_lt_irreflexive(a.drop_first());
    }
}

proof fn lemma_text_lt_total(a: Seq<char>, b: Seq<char>)
    ensures
        a == b || text_lt(a, b) || text_lt(b, a),
        !(text_lt(a, b) && text_lt(b, a)),
    decreases a.len(),
{
    if a.len() > 0 && b.len() > 0 {
        lemma_text_lt_total(a.drop_first(), b.drop_first());
        if a[0] == b[0] && a.drop_first() == b.drop_first() {
            assert(a =~= seq![a[0]] + a.drop_first());
            assert(b =~= seq![b[0]] + b.drop_first());
        }
    } else if a.len() == 0 && b.len() == 0 {
        assert(a =~= b);
    }
}

proof fn lemma_text_lt_transitive(a: Seq<char>, b: Seq<char>, c: Seq<char>)
    requires
        text_lt(a, b),
        text_lt(b, c),
    ensures
        text_lt(a, c),
    decreases a.len(),
{
    if a.len() > 0 && b.len() > 0 && c.len() > 0 && a[0] == b[0] && b[0] == c[0] {
        lemma_text_lt_transitive(a.drop_first(), b.drop_first(), c.drop_first());
    }
}

/// `a < b` for `String`s.
pub fn text_less(a: &str, b: &str) -> (r: bool)
    ensures
        r == text_lt(a@, b@),
{
    let n = a.unicode_len();
    let m = b.unicode_len();
    let mut i: usize = 0;
    assert(a@.skip(0) =~= a@);
    assert(b@.skip(0) =~= b@);
    while i < n && i < m
        invariant
            n == a@.len(),
            m == b@.len(),
            i <= n,
            i <= m,
            text_lt(a@, b@) == text_lt(a@.skip(i as int), b@.skip(i as int)),
        decreases n - i,
    {
        let x = a.get_char(i);
        let y = b.get_char(i);
        assert(a@.skip(i as int)[0] == x);
        assert(b@.skip(i as int)[0] == y);
        if x != y {
            return (x as u32) < (y as u32);
        }
        assert(a@.skip(i as int).drop_first() =~= a@.skip(i + 1));
        assert(b@.skip(i as int).drop_first() =~= b@.skip(i + 1));
        i = i + 1;
    }
    i == n && i < m
}

fn same_key(a: Key3, b: Key3) -> (r: bool)
    ensures
        r == (a == b),
{
    a.0 == b.0 && a.1 == b.1 && a.2 == b.2
}

fn key_less(a: Key3, b: Key3) -> (r: bool)
    ensures
        r == key_lt(a, b),
{
    a.0 < b.0 || (a.0 == b.0 && a.1 < b.1) || (a.0 == b.0 && a.1 == b.1 && a.2 < b.2)
}

/// The positions of `key` in `keys`, in order.
fn key_positions(keys: &Vec<Key3>, key: Key3) -> (r: Vec<usize>)
    ensures
        r@ == positions_of(keys@, key, keys.len() as nat),
{
    let mut members: Vec<usize> = Vec::new();
    let mut i: usize = 0;
    while i < keys.len()
        invariant
            i <= keys.len(),
            members@ == positions_of(keys@, key, i as nat),
        decreases keys.len() - i,
    {
        if same_key(keys[i], key) {
            members.push(i);
        }
        i = i + 1;
    }
    members
}

/// The positions of `name` in `names`, in order.
fn name_positions(names: &Vec<String>, name: &String) -> (r: Vec<usize>)
    ensures
        r@ == positions_of(names.deep_view(), name@, names.len() as nat),
{
    let mut members: Vec<usize> = Vec::new();
    let mut i: usize = 0;
    while i < names.len()
        invariant
            i <= names.len(),
            members@ == positions_of(names.deep_view(), name@, i as nat),
        decreases names.len() - i,
    {
        if names[i] == *name {
            members.push(i);
        }
        i = i + 1;
    }
    members
}

/// The distinct keys, in ascending order.
fn distinct_keys(keys: &Vec<Key3>) -> (r: Vec<Key3>)
    ensures
        forall|a: int, b: int| 0 <= a < b < r.len() ==> key_lt(#[trigger] r@[a], #[trigger] r@[b]),
        forall|k: Key3| r@.contains(k) <==> keys@.contains(k),
{
    let mut distinct: Vec<Key3> = Vec::new();
    let mut i: usize = 0;
    while i < keys.len()
        invariant
            i <= keys.len(),
            forall|a: int, b: int|
                0 <= a < b < distinct.len() ==> key_lt(#[trigger] distinct@[a], #[trigger] distinct@[b]),
            forall|k: Key3| distinct@.contains(k) <==> keys@.take(i as int).contains(k),
        decreases keys.len() - i,
    {
        let k = keys[i];
        let ghost prev = keys@.take(i as int);
        let ghost upto = keys@.take(i + 1);
        let mut p: usize = 0;
        while p < distinct.len() && key_less(distinct[p], k)
            invariant
                p <= distinct.len(),
                forall|a: int| 0 <= a < p ==> key_lt(#[trigger] distinct@[a], k),
            decreases distinct.len() - p,
        {
            p = p + 1;
        }
        let ghost before = distinct@;
        assert(upto =~= prev.push(k));
        if p < distinct.len() && same_key(distinct[p], k) {
            assert forall|x: Key3| distinct@.contains(x) <==> upto.contains(x) by {
                if x == k {
                    assert(distinct@[p as int] == k);
                }
                if upto.contains(x) && x != k {
                    let j = choose|j: int| 0 <= j < i + 1 && upto[j] == x;
                    assert(prev[j] == x);
                }
            }
        } else {
            distinct.insert(p, k);
            assert(distinct@ =~= before.insert(p as int, k));
            assert forall|a: int, b: int|
                0 <= a < b < distinct.len() implies key_lt(
                #[trigger] distinct@[a],
                #[trigger] distinct@[b],
            ) by {
                if b < p {
                    assert(distinct@[a] == before[a] && distinct@[b] == before[b]);
                } else if b == p {
                    assert(distinct@[a] == before[a]);
                } else if a == p {
                    assert(distinct@[b] == before[b - 1]);
                    assert(!key_lt(before[p as int], k));
                } else if a < p {
                    assert(distinct@[b] == before[b - 1]);
                    assert(distinct@[a] == before[a]);
                    if b - 1 < p {
                    } else {
                        assert(key_lt(before[a], k));
                    }
                } else {
                    assert(distinct@[a] == before[a - 1] && distinct@[b] == before[b - 1]);
                }
            }
            assert forall|x: Key3| distinct@.contains(x) <==> upto.contains(x) by {
                if distinct@.contains(x) {
                    let j = choose|j: int| 0 <= j < distinct.len() && distinct@[j] == x;
                    if j < p {
                        assert(before[j] == x);
                        assert(before.contains(x));
                    } else if j > p {
                        assert(before[j - 1] == x);
                        assert(before.contains(x));
                    }
                    if x != k {
                        let jj = choose|jj: int| 0 <= jj < i && prev[jj] == x;
                        assert(upto[jj] == x);
                    } else {
                        assert(upto[i as int] == x);
                    }
                }
                if upto.contains(x) {
                    if x == k {
                        assert(distinct@[p as int] == x);
                    } else {
                        let j = choose|j: int| 0 <= j < i + 1 && upto[j] == x;
                        assert(prev[j] == x);
                        assert(prev.contains(x));
                        assert(before.contains(x));
                        let q = choose|q: int| 0 <= q < before.len() && before[q] == x;
                        if q < p {
                            assert(distinct@[q] == before[q]);
                        } else {
                            assert(distinct@[q + 1] == before[q]);
                        }
                    }
                }
            }
        }
        i = i + 1;
    }
    assert(keys@.take(keys.len() as int) =~= keys@);
    distinct
}

/// Groups the positions of `keys` by key, in ascending key order.
pub fn group_by_key(keys: &Vec<Key3>) -> (r: Vec<KeyGroup>)
    ensures
        groups_by_key(r@, keys@),
{
    let distinct = distinct_keys(keys);
    let mut groups: Vec<KeyGroup> = Vec::new();
    let mut g: usize = 0;
    while g < distinct.len()
        invariant
            g <= distinct.len(),
            groups.len() == g,
            forall|a: int, b: int|
                0 <= a < b < distinct.len() ==> key_lt(#[trigger] distinct@[a], #[trigger] distinct@[b]),
            forall|k: Key3| distinct@.contains(k) <==> keys@.contains(k),
            forall|j: int|
                0 <= j < g ==> (#[trigger] groups@[j]).key == distinct@[j] && groups@[j].members@
                    == positions_of(keys@, distinct@[j], keys.len() as nat),
        decreases distinct.len() - g,
    {
        let key = distinct[g];
        let members = key_positions(keys, key);
        groups.push(KeyGroup { key, members });
        g = g + 1;
    }
    assert(group_keys(groups@) =~= distinct@);
    groups
}

/// The distinct names, in ascending `String` order.
fn distinct_names(names: &Vec<String>) -> (r: Vec<String>)
    ensures
        forall|a: int, b: int|
            0 <= a < b < r.len() ==> text_lt(#[trigger] r@[a]@, #[trigger] r@[b]@),
        forall|t: Seq<char>| r.deep_view().contains(t) <==> names.deep_view().contains(t),
{
    let mut distinct: Vec<String> = Vec::new();
    let mut i: usize = 0;
    while i < names.len()
        invariant
            i <= names.len(),
            forall|a: int, b: int|
                0 <= a < b < distinct.len() ==> text_lt(#[trigger] distinct@[a]@, #[trigger] distinct@[b]@),
            forall|t: Seq<char>|
                distinct.deep_view().contains(t) <==> names.deep_view().take(i as int).contains(t),
        decreases names.len() - i,
    {
        let name = &names[i];
        let ghost prev = names.deep_view().take(i as int);
        let ghost upto = names.deep_view().take(i + 1);
        let mut p: usize = 0;
        while p < distinct.len() && text_less(distinct[p].as_str(), name.as_str())
            invariant
                p <= distinct.len(),
                forall|a: int| 0 <= a < p ==> text_lt(#[trigger] distinct@[a]@, name@),
            decreases distinct.len() - p,
        {
            p = p + 1;
        }
        let ghost before = distinct.deep_view();
        let ghost before_raw = distinct@;
        let ghost k = name@;
        assert(upto =~= prev.push(k));
        if p < distinct.len() && distinct[p] == *name {
            assert forall|x: Seq<char>|
                distinct.deep_view().contains(x) <==> upto.contains(x) by {
                if x == k {
                    assert(distinct.deep_view()[p as int] == k);
                }
                if upto.contains(x) && x != k {
                    let j = choose|j: int| 0 <= j < i + 1 && upto[j] == x;
                    assert(prev[j] == x);
                }
            }
        } else {
            distinct.insert(p, name.clone());
            assert(distinct.deep_view() =~= before.insert(p as int, k));
            proof {
                if p < before.len() {
                    lemma_text_lt_total(before[p as int], k);
                    assert(before[p as int] == before_raw[p as int]@);
                }
            }
            assert forall|a: int, b: int|
                0 <= a < b < distinct.len() implies text_lt(
                #[trigger] distinct@[a]@,
                #[trigger] distinct@[b]@,
            ) by {
                if b < p {
                    assert(distinct@[a] == before_raw[a] && distinct@[b] == before_raw[b]);
                } else if b == p {
                    assert(distinct@[a] == before_raw[a]);
                } else if a == p {
                    assert(distinct@[b] == before_raw[b - 1]);
                    if b - 1 > p {
                        lemma_text_lt_transitive(k, before_raw[p as int]@, before_raw[b - 1]@);
                    }
                } else if a < p {
                    assert(distinct@[b] == before_raw[b - 1]);
                    assert(distinct@[a] == before_raw[a]);
                    if b - 1 >= p {
                        assert(text_lt(before_raw[a]@, k));
                        lemma_text_lt_transitive(before_raw[a]@, k, before_raw[p as int]@);
                        if b - 1 > p {
                            lemma_text_lt_transitive(
                                before_raw[a]@,
                                before_raw[p as int]@,
                                before_raw[b - 1]@,
                            );
                        }
                    }
                } else {
                    assert(distinct@[a] == before_raw[a - 1] && distinct@[b] == before_raw[b - 1]);
                }
            }
            assert forall|x: Seq<char>|
                distinct.deep_view().contains(x) <==> upto.contains(x) by {
                if distinct.deep_view().contains(x) {
                    let j = choose|j: int| 0 <= j < distinct.len() && distinct.deep_view()[j] == x;
                    if j < p {
                        assert(before[j] == x);
                        assert(before.contains(x));
                    } else if j > p {
                        assert(before[j - 1] == x);
                        assert(before.contains(x));
                    }
                    if x != k {
                        let jj = choose|jj: int|
                            0 <= jj < i && prev[jj] == x;
                        assert(upto[jj] == x);
                    } else {
                        assert(upto[i as int] == x);
                    }
                }
                if upto.contains(x) {
                    if x == k {
                        assert(distinct.deep_view()[p as int] == x);
                    } else {
                        let j = choose|j: int| 0 <= j < i + 1 && upto[j] == x;
                        assert(prev[j] == x);
                        assert(prev.contains(x));
                        assert(before.contains(x));
                        let q = choose|q: int| 0 <= q < before.len() && before[q] == x;
                        if q < p {
                            assert(distinct.deep_view()[q] == before[q]);
                        } else {
                            assert(distinct.deep_view()[q + 1] == before[q]);
                        }
                    }
                }
            }
        }
        i = i + 1;
    }
    assert(names.deep_view().take(names.len() as int) =~= names.deep_view());
    distinct
}

/// Groups the positions of `names` by name, in ascending `String` order.
pub fn group_by_name(names: &Vec<String>) -> (r: Vec<NameGroup>)
    ensures
        groups_by_name(r@, names.deep_view()),
{
    let distinct = distinct_names(names);
    let mut groups: Vec<NameGroup> = Vec::new();
    let mut g: usize = 0;
    while g < distinct.len()
        invariant
            g <= distinct.len(),
            groups.len() == g,
            forall|a: int, b: int|
                0 <= a < b < distinct.len() ==> text_lt(#[trigger] distinct@[a]@, #[trigger] distinct@[b]@),
            forall|t: Seq<char>| distinct.deep_view().contains(t) <==> names.deep_view().contains(t),
            forall|j: int|
                0 <= j < g ==> (#[trigger] groups@[j]).name@ == distinct@[j]@ && groups@[j].members@
                    == positions_of(names.deep_view(), distinct@[j]@, names.len() as nat),
        decreases distinct.len() - g,
    {
        let name = distinct[g].clone();
        let members = name_positions(names, &name);
        groups.push(NameGroup { name, members });
        g = g + 1;
    }
    assert(group_names(groups@) =~= distinct.deep_view());
    groups
}


/// A position is listed for a key exactly when the element there is that key.
pub proof fn lemma_positions_of<K>(items: Seq<K>, key: K, n: nat, i: int)
    requires
        n <= items.len(),
        n <= usize::MAX,
    ensures
        positions_of(items, key, n).contains(i as usize) && 0 <= i <= usize::MAX <==> (0 <= i < n
            && items[i] == key),
    decreases n,
{
    if n > 0 {
        lemma_positions_of(items, key, (n - 1) as nat, i);
        let rest = positions_of(items, key, (n - 1) as nat);
        if items[n - 1] == key {
            let all = rest.push((n - 1) as usize);
            assert(all[rest.len() as int] == (n - 1) as usize);
            if all.contains(i as usize) && 0 <= i <= usize::MAX {
                let k = choose|k: int| 0 <= k < all.len() && all[k] == i as usize;
                if k < rest.len() {
                    assert(rest[k] == i as usize);
                }
            }
            if 0 <= i < n && items[i] == key && i < n - 1 {
                let k = choose|k: int| 0 <= k < rest.len() && rest[k] == i as usize;
                assert(all[k] == i as usize);
            }
        }
    }
}

/// Grouping by key partitions the positions: each position is a member of
/// exactly one group, the group of its key.
pub proof fn lemma_key_groups_partition(groups: Seq<KeyGroup>, keys: Seq<Key3>, i: int)
    requires
        groups_by_key(groups, keys),
        0 <= i < keys.len(),
        keys.len() <= usize::MAX,
    ensures
        exists|g: int| 0 <= g < groups.len() && (#[trigger] groups[g]).members@.contains(i as usize),
        forall|g: int|
            0 <= g < groups.len() && (#[trigger] groups[g]).members@.contains(i as usize) ==> groups[g].key
                == keys[i],
{
    assert(keys.contains(keys[i]));
    assert(group_keys(groups).contains(keys[i]));
    let g = choose|g: int| 0 <= g < group_keys(groups).len() && group_keys(groups)[g] == keys[i];
    lemma_positions_of(keys, groups[g].key, keys.len(), i);
    assert forall|h: int|
        0 <= h < groups.len() && (#[trigger] groups[h]).members@.contains(i as usize) implies groups[h].key
        == keys[i] by {
        lemma_positions_of(keys, groups[h].key, keys.len(), i);
    }
}

/// Grouping by name partitions the positions: each position is a member of
/// exactly one group, the group of its name.
pub proof fn lemma_name_groups_partition(groups: Seq<NameGroup>, names: Seq<Seq<char>>, i: int)
    requires
        groups_by_name(groups, names),
        0 <= i < names.len(),
        names.len() <= usize::MAX,
    ensures
        exists|g: int| 0 <= g < groups.len() && (#[trigger] groups[g]).members@.contains(i as usize),
        forall|g: int|
            0 <= g < groups.len() && (#[trigger] groups[g]).members@.contains(i as usize)
                ==> groups[g].name@ == names[i],
{
    assert(names.contains(names[i]));
    assert(group_names(groups).contains(names[i]));
    let g = choose|g: int| 0 <= g < group_names(groups).len() && group_names(groups)[g] == names[i];
    lemma_positions_of(names, groups[g].name@, names.len(), i);
    assert forall|h: int|
        0 <= h < groups.len() && (#[trigger] groups[h]).members@.contains(i as usize) implies groups[h].name@
        == names[i] by {
        lemma_positions_of(names, groups[h].name@, names.len(), i);
    }
}

} // verus!
