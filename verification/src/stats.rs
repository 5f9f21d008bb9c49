//! Request statistics, assembled from the rows of a query into what a route
//! answers with. Results that are listed by name keep the order in which the
//! names first occur in the rows.

use indexmap::IndexMap;
use vstd::prelude::*;

verus! {

/// A hash map that keeps its entries in the order of their insertion.
#[verifier::external_type_specification]
#[verifier::external_body]
#[verifier::reject_recursive_types(K)]
#[verifier::reject_recursive_types(V)]
#[verifier::reject_recursive_types(S)]
pub struct ExIndexMap<K, V, S>(indexmap::IndexMap<K, V, S>);

/// Number of requests and of distinct addresses that made them.
#[derive(Clone, Copy, Debug, PartialEq, Eq, Structural)]
pub struct Stats {
    pub total: i64,
    pub unique_ips: i64,
}

/// What `m` holds: its keys with their values, in the order of the map.
pub uninterp spec fn stats_entries(m: IndexMap<String, Stats>) -> Seq<(Seq<char>, Stats)>;

/// The position of the first entry of `entries` with the key `key`, or the
/// length of `entries` if there is none.
pub open spec fn key_index<V>(entries: Seq<(Seq<char>, V)>, key: Seq<char>) -> int
    decreases entries.len(),
{
    if entries.len() == 0 || entries[0].0 == key {
        0
    } else {
        1 + key_index(entries.drop_first(), key)
    }
}

/// Whether `entries` has an entry with the key `key`.
pub open spec fn has_key<V>(entries: Seq<(Seq<char>, V)>, key: Seq<char>) -> bool {
    key_index(entries, key) < entries.len()
}

/// `entries` after `value` was stored under `key`: in the place of the entry
/// of that key if there is one, else as a new last entry.
pub open spec fn upsert<V>(entries: Seq<(Seq<char>, V)>, key: Seq<char>, value: V) -> Seq<
    (Seq<char>, V),
> {
    if has_key(entries, key) {
        entries.update(key_index(entries, key), (key, value))
    } else {
        entries.push((key, value))
    }
}

/// Calls `IndexMap::new`, which makes an empty map.
#[verifier::external_body]
fn stats_map_new() -> (m: IndexMap<String, Stats>)
    ensures
        stats_entries(m) == Seq::<(Seq<char>, Stats)>::empty(),
{
    IndexMap::new()
}

/// Calls `IndexMap::insert`. Where the map has the key already, the entry
/// keeps its place and gets the new value; otherwise the pair becomes the last
/// entry.
#[verifier::external_body]
fn stats_map_insert(m: &mut IndexMap<String, Stats>, key: String, value: Stats)
    ensures
        stats_entries(*final(m)) == upsert(stats_entries(*old(m)), key@, value),
{
    m.insert(key, value);
}

/// One row of a query that counts requests by name. A row without a name
/// counts the requests that named none.
#[derive(Clone, Debug, PartialEq, Eq)]
pub struct StatsRow {
    pub name: Option<String>,
    pub total: i64,
    pub unique_ips: i64,
}

/// Requests by name, and those that named none.
pub struct Requests {
    pub root: Stats,
    pub versions: IndexMap<String, Stats>,
}

/// The counts of a row.
pub open spec fn stats_of(row: StatsRow) -> Stats {
    Stats { total: row.total, unique_ips: row.unique_ips }
}

/// The counts of the last row without a name, or zero if every row has one.
pub open spec fn root_of(rows: Seq<StatsRow>) -> Stats
    decreases rows.len(),
{
    if rows.len() == 0 {
        Stats { total: 0, unique_ips: 0 }
    } else if rows.last().name is None {
        stats_of(rows.last())
    } else {
        root_of(rows.drop_last())
    }
}

/// The counts of the rows with a name, listed by name in the order in which
/// the names first occur; where a name occurs again, the later row counts.
pub open spec fn named_of(rows: Seq<StatsRow>) -> Seq<(Seq<char>, Stats)>
    decreases rows.len(),
{
    if rows.len() == 0 {
        Seq::<(Seq<char>, Stats)>::empty()
    } else {
        match rows.last().name {
            Some(name) => upsert(named_of(rows.drop_last()), name@, stats_of(rows.last())),
            None => named_of(rows.drop_last()),
        }
    }
}

/// Sorts the rows of a query into the requests that named a version, by
/// version, and those that named none.
pub fn requests_by_name(rows: Vec<StatsRow>) -> (r: Requests)
    ensures
        r.root == root_of(rows@),
        stats_entries(r.versions) == named_of(rows@),
{
    let ghost all = rows@;
    let mut requests = Requests { root: Stats { total: 0, unique_ips: 0 }, versions: stats_map_new() };
    for row in it: rows
        invariant
            it.seq() == all,
            requests.root == root_of(all.take(it.index() as int)),
            stats_entries(requests.versions) == named_of(all.take(it.index() as int)),
    {
        assert(all.take(it.index() + 1).drop_last() == all.take(it.index() as int));
        let stats = Stats { total: row.total, unique_ips: row.unique_ips };
        match row.name {
            Some(name) => {
                stats_map_insert(&mut requests.versions, name, stats);
            },
            None => {
                requests.root = stats;
            },
        }
    }
    assert(all.take(all.len() as int) == all);
    requests
}

/// One row of a query that counts requests by name and day of the month.
#[derive(Clone, Debug, PartialEq, Eq)]
pub struct DailyRow {
    pub name: Option<String>,
    /// Day of the month, from 1.
    pub day: i16,
    pub total: i64,
    pub unique_ips: i64,
}

/// The requests of one day of a month.
pub struct DayRequests {
    /// Day of the month, from 1.
    pub day: i16,
    pub root: Stats,
    pub versions: IndexMap<String, Stats>,
}

/// The row without its day.
pub open spec fn without_day(row: DailyRow) -> StatsRow {
    StatsRow { name: row.name, total: row.total, unique_ips: row.unique_ips }
}

/// The rows of day `day`, in order, each without its day.
pub open spec fn rows_of_day(rows: Seq<DailyRow>, day: int) -> Seq<StatsRow>
    decreases rows.len(),
{
    if rows.len() == 0 {
        Seq::<StatsRow>::empty()
    } else if rows.last().day == day {
        rows_of_day(rows.drop_last(), day).push(without_day(rows.last()))
    } else {
        rows_of_day(rows.drop_last(), day)
    }
}

/// Every row is of a day from 1 to `days`.
pub open spec fn days_within(rows: Seq<DailyRow>, days: u32) -> bool {
    forall|i: int| 0 <= i < rows.len() ==> 1 <= (#[trigger] rows[i]).day <= days
}

/// Whether `requests` lists the days 1 to `days`, each with the requests that
/// `rows` count for it.
pub open spec fn is_daily(requests: Seq<DayRequests>, rows: Seq<DailyRow>, days: u32) -> bool {
    &&& requests.len() == days
    &&& forall|d: int|
        0 <= d < days ==> {
            &&& (#[trigger] requests[d]).day == d + 1
            &&& requests[d].root == root_of(rows_of_day(rows, d + 1))
            &&& stats_entries(requests[d].versions) == named_of(rows_of_day(rows, d + 1))
        }
}

/// The largest number of days that a month can be asked to have here.
pub const MAX_DAYS: u32 = 0x7fff;

/// Sorts the rows of a query into the days of a month of `days` days: for
/// each day the requests that named a version, by version, and those that
/// named none. Every row has to be of one of these days.
pub fn requests_by_day(rows: Vec<DailyRow>, days: u32) -> (r: Vec<DayRequests>)
    requires
        days <= MAX_DAYS,
        days_within(rows@, days),
    ensures
        is_daily(r@, rows@, days),
{
    let ghost all = rows@;
    let mut requests: Vec<DayRequests> = Vec::new();
    let mut i: u32 = 0;
    while i < days
        invariant
            i <= days <= MAX_DAYS,
            is_daily(requests@, Seq::<DailyRow>::empty(), i),
        decreases days - i,
    {
        requests.push(
            DayRequests {
                day: i as i16 + 1,
                root: Stats { total: 0, unique_ips: 0 },
                versions: stats_map_new(),
            },
        );
        i += 1;
    }
    for row in it: rows
        invariant
            it.seq() == all,
            days <= MAX_DAYS,
            days_within(all, days),
            is_daily(requests@, all.take(it.index() as int), days),
    {
        let ghost before = all.take(it.index() as int);
        let ghost after = all.take(it.index() + 1);
        let ghost previous = requests@;
        assert(after.drop_last() == before);
        assert(after.last() == row);
        assert(1 <= all[it.index() as int].day <= days);
        let day: usize = (row.day - 1) as usize;
        let stats = Stats { total: row.total, unique_ips: row.unique_ips };
        match row.name {
            Some(name) => {
                stats_map_insert(&mut requests[day].versions, name, stats);
            },
            None => {
                requests[day].root = stats;
            },
        }
        proof {
            assert forall|d: int| 0 <= d < days implies {
                &&& (#[trigger] requests@[d]).day == d + 1
                &&& requests@[d].root == root_of(rows_of_day(after, d + 1))
                &&& stats_entries(requests@[d].versions) == named_of(rows_of_day(after, d + 1))
            } by {
                assert(previous[d].day == d + 1);
                if d == day {
                    assert(rows_of_day(after, d + 1) == rows_of_day(before, d + 1).push(
                        without_day(row),
                    ));
                    assert(rows_of_day(after, d + 1).drop_last() == rows_of_day(before, d + 1));
                } else {
                    assert(requests@[d] == previous[d]);
                    assert(rows_of_day(after, d + 1) == rows_of_day(before, d + 1));
                }
            }
        }
    }
    assert(all.take(all.len() as int) == all);
    requests
}

/// One row of a query that counts requests by a name that every row has.
#[derive(Clone, Debug, PartialEq, Eq)]
pub struct NamedRow {
    pub name: String,
    pub total: i64,
    pub unique_ips: i64,
}

/// The counts of the rows, listed by name in the order in which the names
/// first occur; where a name occurs again, the later row counts.
pub open spec fn listed_of(rows: Seq<NamedRow>) -> Seq<(Seq<char>, Stats)>
    decreases rows.len(),
{
    if rows.len() == 0 {
        Seq::<(Seq<char>, Stats)>::empty()
    } else {
        upsert(
            listed_of(rows.drop_last()),
            rows.last().name@,
            Stats { total: rows.last().total, unique_ips: rows.last().unique_ips },
        )
    }
}

/// Lists the counts of the rows of a query by name.
pub fn stats_by_name(rows: Vec<NamedRow>) -> (r: IndexMap<String, Stats>)
    ensures
        stats_entries(r) == listed_of(rows@),
{
    let ghost all = rows@;
    let mut listed = stats_map_new();
    for row in it: rows
        invariant
            it.seq() == all,
            stats_entries(listed) == listed_of(all.take(it.index() as int)),
    {
        assert(all.take(it.index() + 1).drop_last() == all.take(it.index() as int));
        stats_map_insert(
            &mut listed,
            row.name,
            Stats { total: row.total, unique_ips: row.unique_ips },
        );
    }
    assert(all.take(all.len() as int) == all);
    listed
}

/// The requests of one day of a month under one name.
#[derive(Clone, Copy, Debug, PartialEq, Eq, Structural)]
pub struct DayStats {
    /// Day of the month, from 1.
    pub day: i16,
    pub total: i64,
    pub unique_ips: i64,
}

/// One row of a query that counts requests by a name that every row has, and
/// by day of the month.
#[derive(Clone, Debug, PartialEq, Eq)]
pub struct HistoryRow {
    pub name: String,
    /// Day of the month, from 1.
    pub day: i16,
    pub total: i64,
    pub unique_ips: i64,
}

/// What `m` holds: its keys with their values, in the order of the map.
pub uninterp spec fn history_entries(m: IndexMap<String, Vec<DayStats>>) -> Seq<
    (Seq<char>, Seq<DayStats>),
>;

/// Calls `IndexMap::new`, which makes an empty map.
#[verifier::external_body]
fn history_map_new() -> (m: IndexMap<String, Vec<DayStats>>)
    ensures
        history_entries(m) == Seq::<(Seq<char>, Seq<DayStats>)>::empty(),
{
    IndexMap::new()
}

/// Calls `IndexMap::contains_key`, which says whether the map has an entry
/// with this key.
#[verifier::external_body]
fn history_map_contains(m: &IndexMap<String, Vec<DayStats>>, key: &str) -> (r: bool)
    ensures
        r == has_key(history_entries(*m), key@),
{
    m.contains_key(key)
}

/// Calls `IndexMap::get` and copies the value it refers to: the value of the
/// entry with this key, if the map has one.
#[verifier::external_body]
fn history_map_get(m: &IndexMap<String, Vec<DayStats>>, key: &str) -> (r: Option<Vec<DayStats>>)
    ensures
        r is Some == has_key(history_entries(*m), key@),
        r is Some ==> r->0@ == history_entries(*m)[key_index(history_entries(*m), key@)].1,
{
    m.get(key).cloned()
}

/// Calls `IndexMap::insert`. Where the map has the key already, the entry
/// keeps its place and gets the new value; otherwise the pair becomes the last
/// entry.
#[verifier::external_body]
fn history_map_insert(m: &mut IndexMap<String, Vec<DayStats>>, key: String, value: Vec<DayStats>)
    ensures
        history_entries(*final(m)) == upsert(history_entries(*old(m)), key@, value@),
{
    m.insert(key, value);
}

/// A month of `days` days without requests.
pub open spec fn blank_month(days: u32) -> Seq<DayStats> {
    Seq::new(days as nat, |i: int| DayStats { day: (i + 1) as i16, total: 0, unique_ips: 0 })
}

/// A blank month for every name in the rows, in the order in which the names
/// first occur.
pub open spec fn blank_history(rows: Seq<HistoryRow>, days: u32) -> Seq<(Seq<char>, Seq<DayStats>)>
    decreases rows.len(),
{
    if rows.len() == 0 {
        Seq::<(Seq<char>, Seq<DayStats>)>::empty()
    } else {
        let before = blank_history(rows.drop_last(), days);
        if has_key(before, rows.last().name@) {
            before
        } else {
            before.push((rows.last().name@, blank_month(days)))
        }
    }
}

/// The month with the counts of `row` on the day of `row`.
pub open spec fn with_day(month: Seq<DayStats>, row: HistoryRow) -> Seq<DayStats> {
    month.update(
        row.day - 1,
        DayStats { day: month[row.day - 1].day, total: row.total, unique_ips: row.unique_ips },
    )
}

/// `history` with the counts of each row on its day under its name; where a
/// name and a day occur again, the later row counts.
pub open spec fn filled_history(
    history: Seq<(Seq<char>, Seq<DayStats>)>,
    rows: Seq<HistoryRow>,
) -> Seq<(Seq<char>, Seq<DayStats>)>
    decreases rows.len(),
{
    if rows.len() == 0 {
        history
    } else {
        let before = filled_history(history, rows.drop_last());
        let at = key_index(before, rows.last().name@);
        before.update(at, (rows.last().name@, with_day(before[at].1, rows.last())))
    }
}

/// The months of the names in the rows, in the order in which the names first
/// occur, each with the counts that the rows give for its days and zero for
/// every other day.
pub open spec fn history_of(rows: Seq<HistoryRow>, days: u32) -> Seq<(Seq<char>, Seq<DayStats>)> {
    filled_history(blank_history(rows, days), rows)
}

/// Every row is of a day from 1 to `days`.
pub open spec fn history_within(rows: Seq<HistoryRow>, days: u32) -> bool {
    forall|i: int| 0 <= i < rows.len() ==> 1 <= (#[trigger] rows[i]).day <= days
}

/// Every month of `history` has `days` days.
pub open spec fn months_of(history: Seq<(Seq<char>, Seq<DayStats>)>, days: u32) -> bool {
    forall|i: int| 0 <= i < history.len() ==> (#[trigger] history[i]).1.len() == days
}

/// Every name of `rows` has an entry in `history`.
pub open spec fn names_listed(history: Seq<(Seq<char>, Seq<DayStats>)>, rows: Seq<HistoryRow>) -> bool {
    forall|i: int| 0 <= i < rows.len() ==> has_key(history, (#[trigger] rows[i]).name@)
}

/// The first entry with a key has that key, and no entry before it has.
pub proof fn lemma_key_index<V>(entries: Seq<(Seq<char>, V)>, key: Seq<char>)
    ensures
        0 <= key_index(entries, key) <= entries.len(),
        has_key(entries, key) ==> entries[key_index(entries, key)].0 == key,
        forall|i: int| 0 <= i < key_index(entries, key) ==> (#[trigger] entries[i]).0 != key,
    decreases entries.len(),
{
    if entries.len() == 0 || entries[0].0 == key {
    } else {
        let rest = entries.drop_first();
        lemma_key_index(rest, key);
        assert forall|i: int| 0 <= i < key_index(entries, key) implies (#[trigger] entries[i]).0
            != key by {
            if i > 0 {
                assert(entries[i] == rest[i - 1]);
            }
        }
    }
}

/// The position of a key is the position of the first entry that has it:
/// any entry with the key shows that the key is there, at or before it.
pub proof fn lemma_key_found<V>(entries: Seq<(Seq<char>, V)>, key: Seq<char>, at: int)
    requires
        0 <= at < entries.len(),
        entries[at].0 == key,
    ensures
        key_index(entries, key) <= at,
        has_key(entries, key),
    decreases entries.len(),
{
    if entries[0].0 == key {
    } else {
        let rest = entries.drop_first();
        assert(rest[at - 1] == entries[at]);
        lemma_key_found(rest, key, at - 1);
    }
}

/// Entries with the same keys in the same places have every key at the same
/// position.
pub proof fn lemma_same_keys<V>(a: Seq<(Seq<char>, V)>, b: Seq<(Seq<char>, V)>, key: Seq<char>)
    requires
        a.len() == b.len(),
        forall|i: int| 0 <= i < a.len() ==> (#[trigger] a[i]).0 == b[i].0,
    ensures
        key_index(a, key) == key_index(b, key),
    decreases a.len(),
{
    if a.len() == 0 {
    } else {
        assert(a[0].0 == b[0].0);
        if a[0].0 != key {
            let ra = a.drop_first();
            let rb = b.drop_first();
            assert forall|i: int| 0 <= i < ra.len() implies (#[trigger] ra[i]).0 == rb[i].0 by {
                assert(a[i + 1].0 == b[i + 1].0);
            }
            lemma_same_keys(ra, rb, key);
        }
    }
}

/// A new last entry leaves every key that was there where it was, and puts
/// its own key last if it was not there.
pub proof fn lemma_key_index_push<V>(
    entries: Seq<(Seq<char>, V)>,
    entry: (Seq<char>, V),
    key: Seq<char>,
)
    ensures
        has_key(entries, key) ==> key_index(entries.push(entry), key) == key_index(entries, key),
        !has_key(entries, key) && entry.0 == key ==> key_index(entries.push(entry), key)
            == entries.len(),
        has_key(entries, key) || entry.0 == key ==> has_key(entries.push(entry), key),
    decreases entries.len(),
{
    if entries.len() == 0 {
        assert(entries.push(entry).drop_first().len() == 0);
    } else if entries[0].0 == key {
    } else {
        assert(entries.push(entry).drop_first() == entries.drop_first().push(entry));
        lemma_key_index_push(entries.drop_first(), entry, key);
    }
}

proof fn lemma_blank_history(rows: Seq<HistoryRow>, days: u32)
    ensures
        months_of(blank_history(rows, days), days),
        names_listed(blank_history(rows, days), rows),
    decreases rows.len(),
{
    if rows.len() > 0 {
        let before = blank_history(rows.drop_last(), days);
        let name = rows.last().name@;
        lemma_blank_history(rows.drop_last(), days);
        let now = blank_history(rows, days);
        assert forall|i: int| 0 <= i < rows.len() implies has_key(now, (#[trigger] rows[i]).name@) by {
            if i < rows.len() - 1 {
                assert(rows.drop_last()[i] == rows[i]);
                lemma_key_index_push(before, (name, blank_month(days)), rows[i].name@);
            } else {
                lemma_key_index_push(before, (name, blank_month(days)), name);
            }
        }
    }
}

proof fn lemma_fill_keeps_shape(
    history: Seq<(Seq<char>, Seq<DayStats>)>,
    rows: Seq<HistoryRow>,
    more: Seq<HistoryRow>,
    days: u32,
)
    requires
        months_of(history, days),
        names_listed(history, rows),
        names_listed(history, more),
        history_within(rows, days),
    ensures
        months_of(filled_history(history, rows), days),
        names_listed(filled_history(history, rows), more),
        filled_history(history, rows).len() == history.len(),
        forall|i: int|
            0 <= i < history.len() ==> (#[trigger] filled_history(history, rows)[i]).0
                == history[i].0,
    decreases rows.len(),
{
    if rows.len() > 0 {
        let head = rows.drop_last();
        assert forall|i: int| 0 <= i < head.len() implies has_key(
            history,
            (#[trigger] head[i]).name@,
        ) by {
            assert(head[i] == rows[i]);
        }
        assert forall|i: int| 0 <= i < head.len() implies 1 <= (#[trigger] head[i]).day <= days by {
            assert(head[i] == rows[i]);
        }
        lemma_fill_keeps_shape(history, head, more, days);
        let before = filled_history(history, head);
        let now = filled_history(history, rows);
        let name = rows.last().name@;
        let at = key_index(before, name);
        assert(has_key(history, rows[rows.len() - 1].name@));
        lemma_same_keys(before, history, name);
        lemma_key_index(before, name);
        assert(1 <= rows[rows.len() - 1].day <= days);
        assert(before[at].1.len() == days);
        assert forall|i: int| 0 <= i < now.len() implies (#[trigger] now[i]).0 == history[i].0 by {
            assert(before[i].0 == history[i].0);
        }
        assert forall|i: int| 0 <= i < now.len() implies (#[trigger] now[i]).1.len() == days by {
            assert(before[i].1.len() == days);
        }
        assert forall|i: int| 0 <= i < more.len() implies has_key(now, (#[trigger] more[i]).name@) by {
            lemma_same_keys(now, history, more[i].name@);
        }
    }
}

/// Lists the counts of the rows of a query by name, each name with a month of
/// `days` days. Every row has to be of one of these days.
pub fn history_by_name(rows: &Vec<HistoryRow>, days: u32) -> (r: IndexMap<String, Vec<DayStats>>)
    requires
        days <= MAX_DAYS,
        history_within(rows@, days),
    ensures
        history_entries(r) == history_of(rows@, days),
{
    let mut history = history_map_new();
    let mut i: usize = 0;
    while i < rows.len()
        invariant
            i <= rows.len(),
            days <= MAX_DAYS,
            history_entries(history) == blank_history(rows@.take(i as int), days),
        decreases rows.len() - i,
    {
        assert(rows@.take(i + 1).drop_last() == rows@.take(i as int));
        if !history_map_contains(&history, rows[i].name.as_str()) {
            let mut month: Vec<DayStats> = Vec::new();
            let mut d: u32 = 0;
            while d < days
                invariant
                    d <= days <= MAX_DAYS,
                    month@ == blank_month(d),
                decreases days - d,
            {
                month.push(DayStats { day: d as i16 + 1, total: 0, unique_ips: 0 });
                d += 1;
                assert(month@ =~= blank_month(d));
            }
            history_map_insert(&mut history, rows[i].name.clone(), month);
        }
        i += 1;
    }
    assert(rows@.take(rows.len() as int) == rows@);
    proof {
        lemma_blank_history(rows@, days);
    }
    let ghost blank = history_entries(history);
    let mut j: usize = 0;
    while j < rows.len()
        invariant
            j <= rows.len(),
            days <= MAX_DAYS,
            history_within(rows@, days),
            blank == blank_history(rows@, days),
            months_of(blank, days),
            names_listed(blank, rows@),
            history_entries(history) == filled_history(blank, rows@.take(j as int)),
        decreases rows.len() - j,
    {
        let ghost head = rows@.take(j as int);
        let ghost before = history_entries(history);
        let row = &rows[j];
        proof {
            assert(rows@.take(j + 1).drop_last() == head);
            assert forall|k: int| 0 <= k < head.len() implies has_key(
                blank,
                (#[trigger] head[k]).name@,
            ) by {
                assert(head[k] == rows@[k]);
            }
            assert forall|k: int| 0 <= k < head.len() implies 1 <= (#[trigger] head[k]).day
                <= days by {
                assert(head[k] == rows@[k]);
            }
            lemma_fill_keeps_shape(blank, head, rows@, days);
            assert(has_key(before, rows@[j as int].name@));
            lemma_key_index(before, row.name@);
            assert(1 <= rows@[j as int].day <= days);
        }
        match history_map_get(&history, row.name.as_str()) {
            Some(mut month) => {
                let at: usize = (row.day - 1) as usize;
                let day = month[at].day;
                month.set(at, DayStats { day, total: row.total, unique_ips: row.unique_ips });
                history_map_insert(&mut history, row.name.clone(), month);
            },
            None => {},
        }
        j += 1;
    }
    assert(rows@.take(rows.len() as int) == rows@);
    history
}

/// No two entries have the same key.
pub open spec fn distinct_keys<V>(entries: Seq<(Seq<char>, V)>) -> bool {
    forall|i: int, j: int|
        0 <= i < j < entries.len() ==> (#[trigger] entries[i]).0 != (#[trigger] entries[j]).0
}

/// The value of the first entry with the key `key`.
pub open spec fn value_of<V>(entries: Seq<(Seq<char>, V)>, key: Seq<char>) -> V {
    entries[key_index(entries, key)].1
}

/// Storing a value under a key makes it the value of that key, keeps the
/// keys distinct, and changes neither the presence nor the value of any
/// other key.
pub proof fn lemma_upsert<V>(entries: Seq<(Seq<char>, V)>, key: Seq<char>, value: V)
    requires
        distinct_keys(entries),
    ensures
        distinct_keys(upsert(entries, key, value)),
        has_key(upsert(entries, key, value), key),
        value_of(upsert(entries, key, value), key) == value,
        forall|other: Seq<char>|
            other != key ==> has_key(#[trigger] upsert(entries, key, value), other) == has_key(
                entries,
                other,
            ),
        forall|other: Seq<char>|
            other != key && has_key(entries, other) ==> value_of(
                #[trigger] upsert(entries, key, value),
                other,
            ) == value_of(entries, other),
{
    let after = upsert(entries, key, value);
    lemma_key_index(entries, key);
    if has_key(entries, key) {
        let at = key_index(entries, key);
        assert forall|i: int| 0 <= i < entries.len() implies (#[trigger] after[i]).0
            == entries[i].0 by {}
        lemma_same_keys(after, entries, key);
        assert forall|other: Seq<char>| other != key implies has_key(after, other) == has_key(
            entries,
            other,
        ) by {
            lemma_same_keys(after, entries, other);
        }
        assert forall|other: Seq<char>| other != key && has_key(entries, other) implies value_of(
            after,
            other,
        ) == value_of(entries, other) by {
            lemma_same_keys(after, entries, other);
            lemma_key_index(entries, other);
        }
    } else {
        lemma_key_index_push(entries, (key, value), key);
        assert forall|i: int, j: int| 0 <= i < j < after.len() implies (#[trigger] after[i]).0 != (
        #[trigger] after[j]).0 by {
            if j == entries.len() {
                assert(after[i] == entries[i]);
            } else {
                assert(after[i] == entries[i]);
                assert(after[j] == entries[j]);
            }
        }
        assert forall|other: Seq<char>| other != key implies has_key(after, other) == has_key(
            entries,
            other,
        ) by {
            lemma_key_index_push(entries, (key, value), other);
            if has_key(after, other) && !has_key(entries, other) {
                lemma_key_index(after, other);
                let at = key_index(after, other);
                assert(after[at] == entries[at]);
                lemma_key_found(entries, other, at);
            }
        }
        assert forall|other: Seq<char>| other != key && has_key(entries, other) implies value_of(
            after,
            other,
        ) == value_of(entries, other) by {
            lemma_key_index_push(entries, (key, value), other);
            lemma_key_index(entries, other);
            assert(after[key_index(entries, other)] == entries[key_index(entries, other)]);
        }
    }
}

/// Whether `row` has the name `name`.
pub open spec fn has_name(row: StatsRow, name: Seq<char>) -> bool {
    row.name matches Some(n) && n@ == name
}

/// Whether row `i` is the last row of `rows` with its name.
pub open spec fn last_of_its_name(rows: Seq<StatsRow>, i: int) -> bool {
    &&& 0 <= i < rows.len()
    &&& rows[i].name is Some
    &&& forall|j: int| i < j < rows.len() ==> !has_name(#[trigger] rows[j], rows[i].name->0@)
}

/// Whether some row of `rows` has the name `name`.
pub open spec fn names(rows: Seq<StatsRow>, name: Seq<char>) -> bool {
    exists|i: int| 0 <= i < rows.len() && has_name(#[trigger] rows[i], name)
}

/// The list of counts by name has one entry for every name in the rows and
/// no other, and the counts of a name are those of the last row with it.
pub proof fn lemma_named_of(rows: Seq<StatsRow>)
    ensures
        distinct_keys(named_of(rows)),
        forall|name: Seq<char>| #[trigger] has_key(named_of(rows), name) == names(rows, name),
        forall|i: int| #[trigger]
            last_of_its_name(rows, i) ==> value_of(named_of(rows), rows[i].name->0@) == stats_of(
                rows[i],
            ),
    decreases rows.len(),
{
    if rows.len() == 0 {
        assert forall|name: Seq<char>| #[trigger]
            has_key(named_of(rows), name) == names(rows, name) by {}
    } else {
        let head = rows.drop_last();
        let last = rows.last();
        lemma_named_of(head);
        let before = named_of(head);
        let after = named_of(rows);
        match last.name {
            Some(n) => {
                lemma_upsert(before, n@, stats_of(last));
                assert forall|name: Seq<char>| #[trigger]
                    has_key(after, name) == names(rows, name) by {
                    if name == n@ {
                        assert(rows[rows.len() - 1].name == Some(n));
                    } else {
                        assert(has_key(upsert(before, n@, stats_of(last)), name) == has_key(
                            before,
                            name,
                        ));
                        assert(has_key(before, name) == names(head, name));
                        if names(head, name) {
                            let i = choose|i: int|
                                0 <= i < head.len() && has_name(#[trigger] head[i], name);
                            assert(rows[i] == head[i]);
                        }
                        if names(rows, name) {
                            let i = choose|i: int|
                                0 <= i < rows.len() && has_name(#[trigger] rows[i], name);
                            assert(head[i] == rows[i]);
                        }
                    }
                }
                assert forall|i: int| #[trigger] last_of_its_name(rows, i) implies value_of(
                    after,
                    rows[i].name->0@,
                ) == stats_of(rows[i]) by {
                    if i < rows.len() - 1 {
                        assert(head[i] == rows[i]);
                        let name = rows[i].name->0@;
                        assert(!has_name(rows[rows.len() - 1], name));
                        assert(name != n@);
                        assert forall|j: int| i < j < head.len() implies !has_name(
                            #[trigger] head[j],
                            head[i].name->0@,
                        ) by {
                            assert(head[j] == rows[j]);
                        }
                        assert(last_of_its_name(head, i));
                        assert(has_key(before, name) == names(head, name));
                        assert(value_of(upsert(before, n@, stats_of(last)), name) == value_of(
                            before,
                            name,
                        ));
                    }
                }
            },
            None => {
                assert forall|name: Seq<char>| #[trigger]
                    has_key(after, name) == names(rows, name) by {
                    assert(has_key(before, name) == names(head, name));
                    if names(head, name) {
                        let i = choose|i: int|
                            0 <= i < head.len() && has_name(#[trigger] head[i], name);
                        assert(rows[i] == head[i]);
                    }
                    if names(rows, name) {
                        let i = choose|i: int|
                            0 <= i < rows.len() && has_name(#[trigger] rows[i], name);
                        assert(head[i] == rows[i]);
                    }
                }
                assert forall|i: int| #[trigger] last_of_its_name(rows, i) implies value_of(
                    after,
                    rows[i].name->0@,
                ) == stats_of(rows[i]) by {
                    assert(head[i] == rows[i]);
                    assert forall|j: int| i < j < head.len() implies !has_name(
                            #[trigger] head[j],
                            head[i].name->0@,
                        ) by {
                        assert(head[j] == rows[j]);
                    }
                    assert(last_of_its_name(head, i));
                }
            },
        }
    }
}

/// Every month counts its days from 1.
pub open spec fn numbered(history: Seq<(Seq<char>, Seq<DayStats>)>) -> bool {
    forall|i: int, d: int|
        0 <= i < history.len() && 0 <= d < history[i].1.len() ==> (#[trigger] history[i].1[d]).day
            == d + 1
}

proof fn lemma_blank_is_numbered(rows: Seq<HistoryRow>, days: u32)
    requires
        days <= MAX_DAYS,
    ensures
        numbered(blank_history(rows, days)),
    decreases rows.len(),
{
    if rows.len() > 0 {
        lemma_blank_is_numbered(rows.drop_last(), days);
    }
}

proof fn lemma_fill_keeps_numbers(
    history: Seq<(Seq<char>, Seq<DayStats>)>,
    rows: Seq<HistoryRow>,
    days: u32,
)
    requires
        months_of(history, days),
        names_listed(history, rows),
        history_within(rows, days),
        numbered(history),
    ensures
        numbered(filled_history(history, rows)),
    decreases rows.len(),
{
    if rows.len() > 0 {
        let head = rows.drop_last();
        assert forall|i: int| 0 <= i < head.len() implies has_key(
            history,
            (#[trigger] head[i]).name@,
        ) by {
            assert(head[i] == rows[i]);
        }
        assert forall|i: int| 0 <= i < head.len() implies 1 <= (#[trigger] head[i]).day <= days by {
            assert(head[i] == rows[i]);
        }
        lemma_fill_keeps_numbers(history, head, days);
        lemma_fill_keeps_shape(history, head, rows, days);
        let before = filled_history(history, head);
        let now = filled_history(history, rows);
        let at = key_index(before, rows.last().name@);
        assert(has_key(before, rows[rows.len() - 1].name@));
        lemma_key_index(before, rows.last().name@);
        assert(1 <= rows[rows.len() - 1].day <= days);
        assert(before[at].1.len() == days);
        assert forall|i: int, d: int| 0 <= i < now.len() && 0 <= d < now[i].1.len() implies (
        #[trigger] now[i].1[d]).day == d + 1 by {
            assert(before[i].1.len() == days);
            assert(before[i].1[d].day == d + 1);
        }
    }
}

/// The history lists every name of the rows with a month of `days` days,
/// numbered from 1.
pub proof fn lemma_history_of(rows: Seq<HistoryRow>, days: u32)
    requires
        days <= MAX_DAYS,
        history_within(rows, days),
    ensures
        names_listed(history_of(rows, days), rows),
        months_of(history_of(rows, days), days),
        numbered(history_of(rows, days)),
{
    lemma_blank_history(rows, days);
    lemma_blank_is_numbered(rows, days);
    lemma_fill_keeps_shape(blank_history(rows, days), rows, rows, days);
    lemma_fill_keeps_numbers(blank_history(rows, days), rows, days);
}

/// The rows with every name present, as rows whose name may be absent.
pub open spec fn as_named(rows: Seq<NamedRow>) -> Seq<StatsRow> {
    rows.map_values(
        |r: NamedRow| StatsRow { name: Some(r.name), total: r.total, unique_ips: r.unique_ips },
    )
}

/// Rows that all have a name are listed as the named rows among rows that
/// may have none: what holds of the one list holds of the other.
pub proof fn lemma_listed_of(rows: Seq<NamedRow>)
    ensures
        listed_of(rows) == named_of(as_named(rows)),
    decreases rows.len(),
{
    if rows.len() > 0 {
        lemma_listed_of(rows.drop_last());
        assert(as_named(rows).drop_last() == as_named(rows.drop_last()));
    }
}

/// The counts of the last row of `rows` with the name `name` and the day
/// `day`, if there is one.
pub open spec fn counts_on(rows: Seq<HistoryRow>, name: Seq<char>, day: int) -> Option<(i64, i64)>
    decreases rows.len(),
{
    if rows.len() == 0 {
        None
    } else if rows.last().name@ == name && rows.last().day == day {
        Some((rows.last().total, rows.last().unique_ips))
    } else {
        counts_on(rows.drop_last(), name, day)
    }
}

/// `stats` with `counts` in place of its own, if there are any.
pub open spec fn with_counts(stats: DayStats, counts: Option<(i64, i64)>) -> DayStats {
    match counts {
        Some((total, unique_ips)) => DayStats { day: stats.day, total, unique_ips },
        None => stats,
    }
}

proof fn lemma_blank_is_distinct(rows: Seq<HistoryRow>, days: u32)
    ensures
        distinct_keys(blank_history(rows, days)),
    decreases rows.len(),
{
    if rows.len() > 0 {
        let before = blank_history(rows.drop_last(), days);
        let now = blank_history(rows, days);
        let name = rows.last().name@;
        lemma_blank_is_distinct(rows.drop_last(), days);
        if !has_key(before, name) {
            assert forall|i: int, j: int| 0 <= i < j < now.len() implies (#[trigger] now[i]).0 != (
            #[trigger] now[j]).0 by {
                assert(now[i] == before[i]);
                if j == before.len() {
                    if before[i].0 == name {
                        lemma_key_found(before, name, i);
                    }
                } else {
                    assert(now[j] == before[j]);
                }
            }
        }
    }
}

proof fn lemma_filled_cells(
    history: Seq<(Seq<char>, Seq<DayStats>)>,
    rows: Seq<HistoryRow>,
    days: u32,
)
    requires
        distinct_keys(history),
        months_of(history, days),
        names_listed(history, rows),
        history_within(rows, days),
    ensures
        forall|i: int, d: int|
            0 <= i < history.len() && 0 <= d < days ==> (#[trigger] filled_history(
                history,
                rows,
            )[i].1[d]) == with_counts(history[i].1[d], counts_on(rows, history[i].0, d + 1)),
    decreases rows.len(),
{
    if rows.len() > 0 {
        let head = rows.drop_last();
        let last = rows.last();
        assert forall|i: int| 0 <= i < head.len() implies has_key(
            history,
            (#[trigger] head[i]).name@,
        ) by {
            assert(head[i] == rows[i]);
        }
        assert forall|i: int| 0 <= i < head.len() implies 1 <= (#[trigger] head[i]).day <= days by {
            assert(head[i] == rows[i]);
        }
        lemma_filled_cells(history, head, days);
        lemma_fill_keeps_shape(history, head, rows, days);
        let before = filled_history(history, head);
        let now = filled_history(history, rows);
        let at = key_index(before, last.name@);
        assert(has_key(before, rows[rows.len() - 1].name@));
        assert(1 <= rows[rows.len() - 1].day <= days);
        lemma_key_index(before, last.name@);
        lemma_same_keys(before, history, last.name@);
        lemma_key_index(history, last.name@);
        assert(history[at].0 == last.name@);
        assert forall|i: int, d: int| 0 <= i < history.len() && 0 <= d < days implies (
        #[trigger] now[i].1[d]) == with_counts(
            history[i].1[d],
            counts_on(rows, history[i].0, d + 1),
        ) by {
            assert(before[i].1[d] == with_counts(
                history[i].1[d],
                counts_on(head, history[i].0, d + 1),
            ));
            assert(before[i].1.len() == days);
            assert(before[i].0 == history[i].0);
            if i != at {
                if i < at {
                    assert(history[i].0 != history[at].0);
                } else {
                    assert(history[at].0 != history[i].0);
                }
            }
        }
    }
}

/// The history, cell by cell: no name is listed twice, and the cell of a
/// name and a day holds the day and the counts of the last row with that
/// name and that day, or zero if the rows have none.
pub proof fn lemma_history_cells(rows: Seq<HistoryRow>, days: u32)
    requires
        days <= MAX_DAYS,
        history_within(rows, days),
    ensures
        distinct_keys(history_of(rows, days)),
        forall|i: int, d: int|
            0 <= i < history_of(rows, days).len() && 0 <= d < days ==> (#[trigger] history_of(
                rows,
                days,
            )[i].1[d]) == with_counts(
                DayStats { day: (d + 1) as i16, total: 0, unique_ips: 0 },
                counts_on(rows, history_of(rows, days)[i].0, d + 1),
            ),
{
    let blank = blank_history(rows, days);
    let h = history_of(rows, days);
    lemma_blank_history(rows, days);
    lemma_blank_is_distinct(rows, days);
    lemma_blank_cells(rows, days);
    lemma_fill_keeps_shape(blank, rows, rows, days);
    lemma_filled_cells(blank, rows, days);
    assert forall|i: int, j: int| 0 <= i < j < h.len() implies (#[trigger] h[i]).0 != (
    #[trigger] h[j]).0 by {
        assert(h[i].0 == blank[i].0);
        assert(h[j].0 == blank[j].0);
    }
    assert forall|i: int, d: int| 0 <= i < h.len() && 0 <= d < days implies (#[trigger] h[i].1[d])
        == with_counts(
        DayStats { day: (d + 1) as i16, total: 0, unique_ips: 0 },
        counts_on(rows, h[i].0, d + 1),
    ) by {
        assert(h[i].0 == blank[i].0);
        assert(blank[i].1.len() == days);
        assert(blank[i].1[d] == DayStats { day: (d + 1) as i16, total: 0, unique_ips: 0 });
    }
}

proof fn lemma_blank_cells(rows: Seq<HistoryRow>, days: u32)
    ensures
        forall|i: int, d: int|
            0 <= i < blank_history(rows, days).len() && 0 <= d < days ==> (#[trigger] blank_history(
                rows,
                days,
            )[i].1[d]) == (DayStats { day: (d + 1) as i16, total: 0, unique_ips: 0 }),
    decreases rows.len(),
{
    if rows.len() > 0 {
        lemma_blank_cells(rows.drop_last(), days);
        lemma_blank_history(rows.drop_last(), days);
    }
}

} // verus!
