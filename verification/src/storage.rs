//! What the match store computes from what it reads: the sets of match
//! identifiers, the stored failure message, and the dashboard.
use vstd::prelude::*;
use crate::models::{DashboardData, MapCount, StoredMatchSummary};
use crate::text::{contains_text, take_chars, take_prefix};

verus! {

/// The longest failure message, in characters, that the store keeps.
pub const MAX_ERROR_CHARS: usize = 2000;

/// The match store at a database file.
#[derive(Debug, Clone)]
pub struct Database {
    path: String,
}

/// The rows that the dashboard queries read: the most recently updated
/// player's name and platform, the number of matches per status, the number
/// of analyzed matches per map (most first), and the latest matches.
pub struct DashboardRows {
    pub player: Option<(String, String)>,
    pub status_counts: Vec<(String, i64)>,
    pub map_counts: Vec<(String, i64)>,
    pub latest_matches: Vec<StoredMatchSummary>,
}

/// `usize::try_from(count).unwrap_or_default()`.
pub open spec fn count_of(count: i64) -> nat {
    if 0 <= count <= usize::MAX {
        count as nat
    } else {
        0
    }
}

pub open spec fn keys_of(rows: Seq<(String, i64)>) -> Seq<Seq<char>> {
    rows.map_values(|row: (String, i64)| row.0@)
}

/// The total of the per-status counts, each status counted once with the
/// last count that the rows give for it.
pub open spec fn status_total(rows: Seq<(String, i64)>) -> nat
    decreases rows.len(),
{
    if rows.len() == 0 {
        0
    } else {
        let rest = rows.drop_first();
        (if keys_of(rest).contains(rows[0].0@) {
            0
        } else {
            count_of(rows[0].1)
        }) + status_total(rest)
    }
}

/// The last count that the rows give for `status`, or zero.
pub open spec fn status_count(rows: Seq<(String, i64)>, status: Seq<char>) -> nat
    decreases rows.len(),
{
    if rows.len() == 0 {
        0
    } else if rows.last().0@ == status {
        count_of(rows.last().1)
    } else {
        status_count(rows.drop_last(), status)
    }
}

/// Whether `maps` lists the rows' map names with their counts, in order.
pub open spec fn maps_from_rows(maps: Seq<MapCount>, rows: Seq<(String, i64)>) -> bool {
    &&& maps.len() == rows.len()
    &&& forall|i: int|
        0 <= i < rows.len() ==> (#[trigger] maps[i]).map_name@ == rows[i].0@ && maps[i].matches
            == count_of(rows[i].1)
}

fn count_from(count: i64) -> (r: usize)
    ensures
        r == count_of(count),
{
    if 0 <= count && count as u64 <= usize::MAX as u64 {
        count as usize
    } else {
        0
    }
}

fn key_occurs_after(rows: &Vec<(String, i64)>, start: usize, key: &String) -> (r: bool)
    requires
        start <= rows.len(),
    ensures
        r == keys_of(rows@.skip(start as int)).contains(key@),
{
    let mut i = start;
    while i < rows.len()
        invariant
            start <= i <= rows.len(),
            forall|j: int| start <= j < i ==> rows@[j].0@ != key@,
        decreases rows.len() - i,
    {
        if rows[i].0 == *key {
            assert(keys_of(rows@.skip(start as int))[i - start] == key@);
            return true;
        }
        i = i + 1;
    }
    assert forall|k: int| 0 <= k < keys_of(rows@.skip(start as int)).len() implies keys_of(
        rows@.skip(start as int),
    )[k] != key@ by {
        assert(rows@.skip(start as int)[k] == rows@[start + k]);
    }
    false
}

/// The sum of the per-status counts, each status counted once.
fn stored_total(rows: &Vec<(String, i64)>) -> (r: usize)
    requires
        status_total(rows@) <= usize::MAX,
    ensures
        r == status_total(rows@),
{
    let mut total: usize = 0;
    let mut i: usize = 0;
    assert(rows@.skip(0) =~= rows@);
    while i < rows.len()
        invariant
            i <= rows.len(),
            status_total(rows@) <= usize::MAX,
            total + status_total(rows@.skip(i as int)) == status_total(rows@),
        decreases rows.len() - i,
    {
        let ghost rest = rows@.skip(i as int);
        assert(rest.drop_first() =~= rows@.skip(i + 1));
        assert(rest[0] == rows@[i as int]);
        let repeated = key_occurs_after(rows, i + 1, &rows[i].0);
        if !repeated {
            total = total + count_from(rows[i].1);
        }
        i = i + 1;
    }
    total
}

/// The last count that the rows give for `status`.
fn count_for(rows: &Vec<(String, i64)>, status: &str) -> (r: usize)
    ensures
        r == status_count(rows@, status@),
{
    let wanted = String::from_str(status);
    let mut i = rows.len();
    assert(rows@.take(i as int) =~= rows@);
    while i > 0
        invariant
            i <= rows.len(),
            wanted@ == status@,
            status_count(rows@, status@) == status_count(rows@.take(i as int), status@),
        decreases i,
    {
        let ghost prefix = rows@.take(i as int);
        assert(prefix.last() == rows@[i - 1]);
        assert(prefix.drop_last() =~= rows@.take(i - 1));
        if rows[i - 1].0 == wanted {
            return count_from(rows[i - 1].1);
        }
        i = i - 1;
    }
    assert(rows@.take(0).len() == 0);
    0
}

impl Database {
    pub closed spec fn path_spec(&self) -> Seq<char> {
        self.path@
    }

    /// The store at the database file `path`.
    pub fn at(path: String) -> (r: Database)
        ensures
            r.path_spec() == path@,
    {
        Database { path }
    }

    /// The database file.
    pub fn path(&self) -> (r: &str)
        ensures
            r@ == self.path_spec(),
    {
        self.path.as_str()
    }

    /// The set of identifiers that the rows of
    /// `SELECT match_id FROM matches` give, each once.
    pub fn existing_match_ids(&self, rows: &Vec<String>) -> (r: Vec<String>)
        ensures
            forall|id: Seq<char>| r.deep_view().contains(id) <==> rows.deep_view().contains(id),
            r.deep_view().no_duplicates(),
    {
        match_id_set(rows)
    }

    /// The set of identifiers that the rows of the
    /// analyzed matches give, each once.
    pub fn analyzed_match_ids(&self, rows: &Vec<String>) -> (r: Vec<String>)
        ensures
            forall|id: Seq<char>| r.deep_view().contains(id) <==> rows.deep_view().contains(id),
            r.deep_view().no_duplicates(),
    {
        match_id_set(rows)
    }

    /// The error text that `mark_failed` stores: the first 2000 characters of
    /// the message.
    pub fn failure_message(&self, message: &str) -> (r: String)
        ensures
            r@ == take_chars(message@, MAX_ERROR_CHARS as nat),
    {
        take_prefix(message, MAX_ERROR_CHARS)
    }

    /// The player, the number of stored, analyzed and failed
    /// matches, the matches per map and the latest matches that the rows
    /// give, with the dataset summary, which is present exactly when some
    /// match was analyzed.
    pub fn dashboard<D>(&self, rows: DashboardRows, dataset: Option<D>) -> (r: DashboardData<D>)
        requires
            status_total(rows.status_counts@) <= usize::MAX,
        ensures
            r.player_name.deep_view() == match rows.player {
                Some(p) => Some(p.0@),
                None => None,
            },
            r.platform.deep_view() == match rows.player {
                Some(p) => Some(p.1@),
                None => None,
            },
            r.stored_matches == status_total(rows.status_counts@),
            keys_of(rows.status_counts@).no_duplicates() ==> r.stored_matches == count_sum(
                rows.status_counts@,
            ),
            r.analyzed_matches == status_count(rows.status_counts@, "analyzed"@),
            r.failed_matches == status_count(rows.status_counts@, "failed"@),
            maps_from_rows(r.maps@, rows.map_counts@),
            r.latest_matches@ == rows.latest_matches@,
            r.dataset == dataset,
    {
        let stored_matches = stored_total(&rows.status_counts);
        proof {
            if keys_of(rows.status_counts@).no_duplicates() {
                lemma_distinct_statuses_all_count(rows.status_counts@);
            }
        }
        let analyzed_matches = count_for(&rows.status_counts, "analyzed");
        let failed_matches = count_for(&rows.status_counts, "failed");
        let mut maps: Vec<MapCount> = Vec::new();
        let mut i: usize = 0;
        while i < rows.map_counts.len()
            invariant
                i <= rows.map_counts.len(),
                maps_from_rows(maps@, rows.map_counts@.take(i as int)),
            decreases rows.map_counts.len() - i,
        {
            let row = &rows.map_counts[i];
            maps.push(MapCount { map_name: row.0.clone(), matches: count_from(row.1) });
            i = i + 1;
        }
        assert(rows.map_counts@.take(rows.map_counts.len() as int) =~= rows.map_counts@);
        let DashboardRows { player, status_counts: _, map_counts: _, latest_matches } = rows;
        let (player_name, platform) = match player {
            Some((name, platform)) => (Some(name), Some(platform)),
            None => (None, None),
        };
        DashboardData {
            player_name,
            platform,
            stored_matches,
            analyzed_matches,
            failed_matches,
            maps,
            latest_matches,
            dataset,
        }
    }
}

/// The identifiers of the rows, each once.
fn match_id_set(rows: &Vec<String>) -> (r: Vec<String>)
    ensures
        forall|id: Seq<char>| r.deep_view().contains(id) <==> rows.deep_view().contains(id),
        r.deep_view().no_duplicates(),
{
    let mut ids: Vec<String> = Vec::new();
    let mut i: usize = 0;
    while i < rows.len()
        invariant
            i <= rows.len(),
            forall|id: Seq<char>| ids.deep_view().contains(id) <==> exists|j: int|
                0 <= j < i && rows.deep_view()[j] == id,
            ids.deep_view().no_duplicates(),
        decreases rows.len() - i,
    {
        let ghost before = ids.deep_view();
        let id = &rows[i];
        if !contains_text(&ids, id) {
            ids.push(id.clone());
            assert(ids.deep_view() =~= before.push(id@));
            assert forall|a: int, b: int|
                0 <= a < ids.deep_view().len() && 0 <= b < ids.deep_view().len() && a
                    != b implies ids.deep_view()[a] != ids.deep_view()[b] by {
                if a < before.len() && b < before.len() {
                } else if a == before.len() {
                    assert(!before.contains(id@));
                    assert(ids.deep_view()[b] == before[b]);
                } else {
                    assert(!before.contains(id@));
                    assert(ids.deep_view()[a] == before[a]);
                }
            }
        }
        proof {
            assert forall|t: Seq<char>| ids.deep_view().contains(t) <==> exists|j: int|
                0 <= j < i + 1 && rows.deep_view()[j] == t by {
                if ids.deep_view().contains(t) {
                    if before.contains(t) {
                        let j = choose|j: int| 0 <= j < i && rows.deep_view()[j] == t;
                        assert(0 <= j < i + 1 && rows.deep_view()[j] == t);
                    } else {
                        assert(rows.deep_view()[i as int] == t);
                    }
                }
                if exists|j: int| 0 <= j < i + 1 && rows.deep_view()[j] == t {
                    let j = choose|j: int| 0 <= j < i + 1 && rows.deep_view()[j] == t;
                    if j < i {
                        assert(before.contains(t));
                        let k = choose|k: int| 0 <= k < before.len() && before[k] == t;
                        assert(ids.deep_view()[k] == t);
                    } else {
                        assert(rows.deep_view()[i as int] == id@);
                        if before.contains(id@) {
                            let k = choose|k: int| 0 <= k < before.len() && before[k] == t;
                            assert(ids.deep_view()[k] == t);
                        } else {
                            assert(ids.deep_view()[before.len() as int] == t);
                        }
                    }
                }
            }
        }
        i = i + 1;
    }
    proof {
        assert forall|t: Seq<char>| ids.deep_view().contains(t) <==> rows.deep_view().contains(
            t,
        ) by {
            if rows.deep_view().contains(t) {
                let j = choose|j: int| 0 <= j < rows.deep_view().len() && rows.deep_view()[j] == t;
                assert(0 <= j < i && rows.deep_view()[j] == t);
            }
        }
    }
    ids
}

/// The sum of the counts of all rows, each row counted whatever its status.
pub open spec fn count_sum(rows: Seq<(String, i64)>) -> nat
    decreases rows.len(),
{
    if rows.len() == 0 {
        0
    } else {
        count_of(rows[0].1) + count_sum(rows.drop_first())
    }
}

/// When no status occurs twice in the rows, the stored matches are the sum of
/// all the rows' counts: every status counts, whatever its text.
pub proof fn lemma_distinct_statuses_all_count(rows: Seq<(String, i64)>)
    requires
        keys_of(rows).no_duplicates(),
    ensures
        status_total(rows) == count_sum(rows),
    decreases rows.len(),
{
    if rows.len() > 0 {
        let rest = rows.drop_first();
        assert(keys_of(rest) =~= keys_of(rows).drop_first());
        if keys_of(rest).contains(rows[0].0@) {
            let j = choose|j: int| 0 <= j < keys_of(rest).len() && keys_of(rest)[j] == rows[0].0@;
            assert(keys_of(rows)[j + 1] == keys_of(rows)[0]);
        }
        lemma_distinct_statuses_all_count(rest);
    }
}

proof fn lemma_status_count_absent(rows: Seq<(String, i64)>, status: Seq<char>)
    requires
        !keys_of(rows).contains(status),
    ensures
        status_count(rows, status) == 0,
    decreases rows.len(),
{
    if rows.len() > 0 {
        assert(keys_of(rows)[rows.len() - 1] == rows.last().0@);
        let shorter = rows.drop_last();
        assert forall|j: int| 0 <= j < keys_of(shorter).len() implies keys_of(shorter)[j]
            != status by {
            assert(keys_of(shorter)[j] == keys_of(rows)[j]);
        }
        lemma_status_count_absent(shorter, status);
    }
}

proof fn lemma_status_count_front(first: (String, i64), rest: Seq<(String, i64)>, status: Seq<char>)
    ensures
        status_count(seq![first] + rest, status) == if keys_of(rest).contains(status) {
            status_count(rest, status)
        } else if first.0@ == status {
            count_of(first.1)
        } else {
            0
        },
    decreases rest.len(),
{
    let all = seq![first] + rest;
    if rest.len() == 0 {
        assert(all.last() == first);
        assert(all.drop_last() =~= Seq::<(String, i64)>::empty());
        if !keys_of(rest).contains(status) && first.0@ != status {
            lemma_status_count_absent(all.drop_last(), status);
        }
    } else {
        assert(all.last() == rest.last());
        assert(keys_of(rest)[rest.len() - 1] == rest.last().0@);
        if rest.last().0@ != status {
            let shorter = rest.drop_last();
            assert(all.drop_last() =~= seq![first] + shorter);
            lemma_status_count_front(first, shorter, status);
            assert(keys_of(rest).contains(status) <==> keys_of(shorter).contains(status)) by {
                if keys_of(rest).contains(status) {
                    let j = choose|j: int| 0 <= j < keys_of(rest).len() && keys_of(rest)[j] == status;
                    assert(keys_of(shorter)[j] == status);
                }
                if keys_of(shorter).contains(status) {
                    let j = choose|j: int|
                        0 <= j < keys_of(shorter).len() && keys_of(shorter)[j] == status;
                    assert(keys_of(rest)[j] == status);
                }
            }
        }
    }
}

/// A further row with status `row.0` and count `row.1` replaces the count
/// that the earlier rows give for that status (none when it has not occurred)
/// by its own: the stored matches grow by the new count less the replaced one,
/// whatever the status text is.
pub proof fn lemma_status_total_push(rows: Seq<(String, i64)>, row: (String, i64))
    ensures
        status_total(rows.push(row)) + status_count(rows, row.0@) == status_total(rows) + count_of(
            row.1,
        ),
        !keys_of(rows).contains(row.0@) ==> status_total(rows.push(row)) == status_total(rows)
            + count_of(row.1),
    decreases rows.len(),
{
    let s = row.0@;
    if rows.len() == 0 {
        assert(rows.push(row).drop_first() =~= Seq::<(String, i64)>::empty());
        assert(keys_of(Seq::<(String, i64)>::empty()) =~= Seq::<Seq<char>>::empty());
        assert(status_total(rows.push(row).drop_first()) == 0);
        assert(status_total(rows.push(row)) == count_of(row.1));
        assert(status_count(rows, s) == 0);
    } else {
        let first = rows[0];
        let rest = rows.drop_first();
        lemma_status_total_push(rest, row);
        assert(rows =~= seq![first] + rest);
        assert(rows.push(row).drop_first() =~= rest.push(row));
        assert(rows.push(row)[0] == first);
        lemma_status_count_front(first, rest, s);
        if !keys_of(rest).contains(s) {
            lemma_status_count_absent(rest, s);
        }
        let pushed = rest.push(row);
        assert(keys_of(pushed) =~= keys_of(rest).push(s));
        assert(keys_of(pushed).contains(first.0@) <==> (keys_of(rest).contains(first.0@)
            || first.0@ == s)) by {
            if keys_of(pushed).contains(first.0@) {
                let j = choose|j: int| 0 <= j < keys_of(pushed).len() && keys_of(pushed)[j] == first.0@;
                if j < keys_of(rest).len() {
                    assert(keys_of(rest)[j] == first.0@);
                }
            }
            if first.0@ == s {
                assert(keys_of(pushed)[keys_of(rest).len() as int] == s);
            }
            if keys_of(rest).contains(first.0@) {
                let j = choose|j: int| 0 <= j < keys_of(rest).len() && keys_of(rest)[j] == first.0@;
                assert(keys_of(pushed)[j] == first.0@);
            }
        }
        assert(status_total(rows.push(row)) == (if keys_of(pushed).contains(first.0@) {
            0
        } else {
            count_of(first.1)
        }) + status_total(pushed));
        assert(status_total(rows) == (if keys_of(rest).contains(first.0@) {
            0
        } else {
            count_of(first.1)
        }) + status_total(rest));
        assert(status_count(rows, s) == status_count(seq![first] + rest, s));
        if !keys_of(rows).contains(s) {
            assert(keys_of(rows)[0] == first.0@);
            assert(!keys_of(rest).contains(s)) by {
                if keys_of(rest).contains(s) {
                    let j = choose|j: int| 0 <= j < keys_of(rest).len() && keys_of(rest)[j] == s;
                    assert(keys_of(rows)[j + 1] == s);
                }
            }
        }
    }
}

} // verus!
