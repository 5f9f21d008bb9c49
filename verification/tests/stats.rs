use api_core::stats::{
    history_by_name, requests_by_day, requests_by_name, stats_by_name, DailyRow, DayStats,
    HistoryRow, NamedRow, Stats, StatsRow, MAX_DAYS,
};

fn row(name: Option<&str>, total: i64, unique_ips: i64) -> StatsRow {
    StatsRow { name: name.map(|n| n.to_string()), total, unique_ips }
}

fn daily(name: Option<&str>, day: i16, total: i64, unique_ips: i64) -> DailyRow {
    DailyRow { name: name.map(|n| n.to_string()), day, total, unique_ips }
}

fn history(name: &str, day: i16, total: i64, unique_ips: i64) -> HistoryRow {
    HistoryRow { name: name.to_string(), day, total, unique_ips }
}

fn listed(map: &indexmap::IndexMap<String, Stats>) -> Vec<(String, Stats)> {
    map.iter().map(|(k, v)| (k.clone(), *v)).collect()
}

#[test]
fn requests_are_sorted_into_named_and_unnamed() {
    let r = requests_by_name(vec![
        row(Some("1.21.1"), 90, 40),
        row(None, 50, 30),
        row(Some("1.20.4"), 20, 10),
    ]);
    assert_eq!(r.root, Stats { total: 50, unique_ips: 30 });
    assert_eq!(
        listed(&r.versions),
        vec![
            ("1.21.1".to_string(), Stats { total: 90, unique_ips: 40 }),
            ("1.20.4".to_string(), Stats { total: 20, unique_ips: 10 }),
        ]
    );
}

#[test]
fn no_rows_give_zero_and_an_empty_list() {
    let r = requests_by_name(Vec::new());
    assert_eq!(r.root, Stats { total: 0, unique_ips: 0 });
    assert!(r.versions.is_empty());
}

#[test]
fn repeated_name_keeps_its_place_and_takes_the_later_counts() {
    let r = requests_by_name(vec![
        row(Some("a"), 1, 1),
        row(Some("b"), 2, 2),
        row(Some("a"), 3, 3),
        row(None, 4, 4),
        row(None, 5, 5),
    ]);
    assert_eq!(r.root, Stats { total: 5, unique_ips: 5 });
    assert_eq!(
        listed(&r.versions),
        vec![
            ("a".to_string(), Stats { total: 3, unique_ips: 3 }),
            ("b".to_string(), Stats { total: 2, unique_ips: 2 }),
        ]
    );
}

#[test]
fn counts_are_listed_by_name() {
    let r = stats_by_name(vec![
        NamedRow { name: "PAPER".to_string(), total: 7, unique_ips: 3 },
        NamedRow { name: "VANILLA".to_string(), total: 5, unique_ips: 5 },
        NamedRow { name: "PAPER".to_string(), total: 8, unique_ips: 4 },
    ]);
    assert_eq!(
        listed(&r),
        vec![
            ("PAPER".to_string(), Stats { total: 8, unique_ips: 4 }),
            ("VANILLA".to_string(), Stats { total: 5, unique_ips: 5 }),
        ]
    );
}

#[test]
fn every_day_of_the_month_is_listed() {
    let r = requests_by_day(
        vec![
            daily(Some("1.21"), 2, 10, 5),
            daily(None, 3, 7, 7),
            daily(Some("1.20"), 2, 4, 2),
            daily(Some("1.21"), 1, 1, 1),
            daily(Some("1.21"), 2, 11, 6),
        ],
        3,
    );
    assert_eq!(r.len(), 3);
    assert_eq!(r.iter().map(|d| d.day).collect::<Vec<i16>>(), vec![1, 2, 3]);
    assert_eq!(listed(&r[0].versions), vec![("1.21".to_string(), Stats { total: 1, unique_ips: 1 })]);
    assert_eq!(
        listed(&r[1].versions),
        vec![
            ("1.21".to_string(), Stats { total: 11, unique_ips: 6 }),
            ("1.20".to_string(), Stats { total: 4, unique_ips: 2 }),
        ]
    );
    assert_eq!(r[1].root, Stats { total: 0, unique_ips: 0 });
    assert_eq!(r[2].root, Stats { total: 7, unique_ips: 7 });
    assert!(r[2].versions.is_empty());
}

#[test]
fn month_without_rows_has_empty_days() {
    let r = requests_by_day(Vec::new(), 31);
    assert_eq!(r.len(), 31);
    assert_eq!(r[30].day, 31);
    assert!(r.iter().all(|d| d.versions.is_empty() && d.root == Stats { total: 0, unique_ips: 0 }));
    assert!(requests_by_day(Vec::new(), 0).is_empty());
    assert_eq!(MAX_DAYS, 32767);
}

#[test]
fn history_has_a_full_month_for_every_name() {
    let rows = vec![
        history("1.21", 2, 10, 5),
        history("1.20", 1, 4, 2),
        history("1.21", 3, 6, 3),
        history("1.21", 2, 12, 7),
    ];
    let r = history_by_name(&rows, 3);
    let got: Vec<(String, Vec<DayStats>)> = r.iter().map(|(k, v)| (k.clone(), v.clone())).collect();
    assert_eq!(
        got,
        vec![
            (
                "1.21".to_string(),
                vec![
                    DayStats { day: 1, total: 0, unique_ips: 0 },
                    DayStats { day: 2, total: 12, unique_ips: 7 },
                    DayStats { day: 3, total: 6, unique_ips: 3 },
                ]
            ),
            (
                "1.20".to_string(),
                vec![
                    DayStats { day: 1, total: 4, unique_ips: 2 },
                    DayStats { day: 2, total: 0, unique_ips: 0 },
                    DayStats { day: 3, total: 0, unique_ips: 0 },
                ]
            ),
        ]
    );
}

#[test]
fn history_without_rows_is_empty() {
    assert!(history_by_name(&Vec::new(), 30).is_empty());
}

#[test]
fn history_agrees_with_two_passes_over_the_map() {
    let rows = vec![
        history("b", 28, 1, 1),
        history("a", 1, 2, 2),
        history("b", 1, 3, 3),
        history("c", 15, 4, 4),
        history("a", 1, 5, 5),
    ];
    let days = 28u32;
    let mut expected: indexmap::IndexMap<String, Vec<DayStats>> = indexmap::IndexMap::new();
    for r in &rows {
        if !expected.contains_key(&r.name) {
            let month = (0..days)
                .map(|i| DayStats { day: i as i16 + 1, total: 0, unique_ips: 0 })
                .collect();
            expected.insert(r.name.clone(), month);
        }
    }
    for r in &rows {
        let entry = expected.get_mut(&r.name).unwrap().get_mut(r.day as usize - 1).unwrap();
        entry.total = r.total;
        entry.unique_ips = r.unique_ips;
    }
    let got = history_by_name(&rows, days);
    assert_eq!(got, expected);
    assert_eq!(got.keys().cloned().collect::<Vec<String>>(), vec!["b", "a", "c"]);
}
