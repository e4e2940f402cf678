use netflow_agg::cache::{cache_data_mt, start_of_shard, AggregationCache};
use netflow_agg::counters::{FlowCount, Role};
use netflow_agg::date::Date;
use netflow_agg::key::AggregationKey;
use netflow_agg::netflow::NetflowV4;
use netflow_agg::partition::{check_dbtable, table_missing};
use netflow_agg::pattern::{Pattern, CAMPUS_ADDRESS_PATTERN};
use netflow_agg::partition::{Upkeep, UpkeepEvent, UpkeepStep};
use netflow_agg::upsert::{
    update_flow, update_flow_mt, BatchRow, SqlValue, UpsertPath, CHUNK_ROWS, ROW_PARAMETERS,
};

const MERGE: &str = "ON CONFLICT (address, date, hour) DO UPDATE SET internal_in = T.internal_in + EXCLUDED.internal_in, internal_out = T.internal_out + EXCLUDED.internal_out, external_in = T.external_in + EXCLUDED.external_in, external_out = T.external_out + EXCLUDED.external_out;";

/// The upsert of `rows` rows into `table`, written out independently.
fn upsert_sql(table: &str, rows: usize) -> String {
    let groups: Vec<String> = (0..rows)
        .map(|row| {
            let places: Vec<String> = (1..=7).map(|i| format!("${}", 7 * row + i)).collect();
            format!("({})", places.join(", "))
        })
        .collect();
    format!(
        "INSERT INTO {} (address, date, hour, internal_in, internal_out, external_in, external_out) VALUES {} {}",
        table,
        groups.join(", "),
        MERGE.replace("T.", &format!("{}.", table))
    )
}

fn row(address: u32, month: u32, day: u32, hour: u8, counts: [u64; 4]) -> BatchRow {
    let key = AggregationKey::new(address, Date::new(2024, month, day).unwrap(), hour).unwrap();
    let count = FlowCount::default()
        .add_bytes(Role::InternalIn, counts[0])
        .unwrap()
        .add_bytes(Role::InternalOut, counts[1])
        .unwrap()
        .add_bytes(Role::ExternalIn, counts[2])
        .unwrap()
        .add_bytes(Role::ExternalOut, counts[3])
        .unwrap();
    BatchRow::new(key, count)
}

fn shown(params: &[SqlValue]) -> Vec<String> {
    params
        .iter()
        .map(|param| match param {
            SqlValue::Address(address) => format!("address {:#x}", address),
            SqlValue::Date(date) => format!("date {}-{}-{}", date.year(), date.month(), date.day()),
            SqlValue::SmallInt(n) => format!("smallint {}", n),
            SqlValue::BigInt(n) => format!("bigint {}", n),
            SqlValue::Text(text) => format!("text {}", text),
        })
        .collect()
}

#[test]
fn upsert_of_one_row() {
    let statement = update_flow(&row(0x8c7d0102, 5, 1, 10, [1, 2, 3, 4]));
    let expected = format!(
        "INSERT INTO nf_2024_05 (address, date, hour, internal_in, internal_out, external_in, external_out) VALUES ($1, $2, $3, $4, $5, $6, $7) {}",
        MERGE.replace("T.", "nf_2024_05.")
    );
    assert_eq!(statement.sql, expected);
    assert_eq!(
        shown(&statement.params),
        vec![
            "address 0x8c7d0102",
            "date 2024-5-1",
            "smallint 10",
            "bigint 1",
            "bigint 2",
            "bigint 3",
            "bigint 4"
        ]
    );
}

#[test]
fn upsert_text_numbers_its_parameters() {
    let rows: Vec<BatchRow> = (0..3).map(|i| row(i, 5, 1, 10, [0, 0, 0, 0])).collect();
    let expected = format!(
        "INSERT INTO nf_2024_05 (address, date, hour, internal_in, internal_out, external_in, external_out) VALUES ($1, $2, $3, $4, $5, $6, $7), ($8, $9, $10, $11, $12, $13, $14), ($15, $16, $17, $18, $19, $20, $21) {}",
        MERGE.replace("T.", "nf_2024_05.")
    );
    match update_flow_mt(&rows) {
        UpsertPath::Bulk(statement) => assert_eq!(statement.sql, expected),
        UpsertPath::PerRow(_) => panic!("one table"),
    }
    let most: Vec<BatchRow> =
        (0..CHUNK_ROWS as u32).map(|i| row(i, 5, 1, 10, [0, 0, 0, 0])).collect();
    match update_flow_mt(&most) {
        UpsertPath::Bulk(statement) => {
            assert_eq!(statement.sql, upsert_sql("nf_2024_05", 100));
            assert!(statement
                .sql
                .contains(", ($694, $695, $696, $697, $698, $699, $700) ON CONFLICT"));
            assert!(!statement.sql.contains("$701"));
            assert_eq!(statement.params.len(), 700);
        }
        UpsertPath::PerRow(_) => panic!("one table"),
    }
    assert_eq!(ROW_PARAMETERS, 7);
    assert_eq!(CHUNK_ROWS, 100);
}

#[test]
fn homogeneous_chunk_is_one_statement() {
    let rows = vec![
        row(0x8c7d0102, 5, 1, 10, [1, 2, 3, 4]),
        row(0x8c7d0102, 5, 31, 23, [5, 6, 7, 8]),
    ];
    match update_flow_mt(&rows) {
        UpsertPath::Bulk(statement) => {
            assert_eq!(statement.sql, upsert_sql("nf_2024_05", 2));
            assert_eq!(
                shown(&statement.params),
                vec![
                    "address 0x8c7d0102",
                    "date 2024-5-1",
                    "smallint 10",
                    "bigint 1",
                    "bigint 2",
                    "bigint 3",
                    "bigint 4",
                    "address 0x8c7d0102",
                    "date 2024-5-31",
                    "smallint 23",
                    "bigint 5",
                    "bigint 6",
                    "bigint 7",
                    "bigint 8"
                ]
            );
        }
        UpsertPath::PerRow(_) => panic!("one table"),
    }
}

#[test]
fn mixed_chunk_is_one_statement_for_each_row() {
    let rows = vec![
        row(1, 5, 31, 23, [1, 0, 0, 0]),
        row(2, 6, 1, 0, [0, 2, 0, 0]),
        row(3, 5, 30, 1, [0, 0, 3, 0]),
    ];
    match update_flow_mt(&rows) {
        UpsertPath::PerRow(statements) => {
            assert_eq!(statements.len(), 3);
            assert_eq!(statements[0].sql, upsert_sql("nf_2024_05", 1));
            assert_eq!(statements[1].sql, upsert_sql("nf_2024_06", 1));
            assert_eq!(statements[2].sql, upsert_sql("nf_2024_05", 1));
            assert_eq!(shown(&statements[1].params)[0], "address 0x2");
            assert_eq!(shown(&statements[1].params)[4], "bigint 2");
            assert_eq!(shown(&statements[2].params)[5], "bigint 3");
        }
        UpsertPath::Bulk(_) => panic!("two tables"),
    }
}

#[test]
fn row_is_bound_for_the_table_of_its_month() {
    let made = row(7, 12, 25, 0, [0, 0, 0, 9]);
    assert_eq!(made.table(), "nf_2024_12");
    assert_eq!(made.key().address(), 7);
    assert_eq!(made.count().external_out(), 9);
    let copy = made.clone();
    assert_eq!(copy.table(), made.table());
    assert_eq!(copy.key(), made.key());
    assert_eq!(copy.count(), made.count());
}

#[test]
fn partitions_of_this_month_and_the_next() {
    let checks = check_dbtable(2024, 5);
    assert_eq!(checks.len(), 2);
    assert_eq!(checks[0].table, "nf_2024_05");
    assert_eq!(checks[1].table, "nf_2024_06");
    assert_eq!(
        checks[0].count.sql,
        "SELECT COUNT(*) FROM information_schema.tables WHERE table_name = $1;"
    );
    assert_eq!(shown(&checks[0].count.params), vec!["text nf_2024_05"]);
    assert_eq!(shown(&checks[1].count.params), vec!["text nf_2024_06"]);
    assert_eq!(
        checks[1].create.sql,
        "CREATE TABLE nf_2024_06 (address inet NOT NULL, date date NOT NULL, hour smallint NOT NULL, internal_in bigint DEFAULT 0, internal_out bigint DEFAULT 0, external_in bigint DEFAULT 0, external_out bigint DEFAULT 0, PRIMARY KEY (address, date, hour), CHECK (hour BETWEEN 0 AND 23));"
    );
    assert!(checks[0].create.params.is_empty());
}

#[test]
fn partition_after_december_is_january() {
    let checks = check_dbtable(2024, 12);
    assert_eq!(checks.len(), 2);
    assert_eq!(checks[0].table, "nf_2024_12");
    assert_eq!(checks[1].table, "nf_2025_01");
    let last = check_dbtable(9999, 12);
    assert_eq!(last.len(), 1);
    assert_eq!(last[0].table, "nf_9999_12");
}

#[test]
fn no_partitions_outside_the_calendar() {
    assert!(check_dbtable(2024, 0).is_empty());
    assert!(check_dbtable(2024, 13).is_empty());
    assert!(check_dbtable(-1, 5).is_empty());
    assert!(check_dbtable(10000, 5).is_empty());
}

#[test]
fn table_is_created_where_none_is_counted() {
    assert!(table_missing(0));
    assert!(!table_missing(1));
    assert!(!table_missing(2));
    assert!(!table_missing(-1));
}

fn counted_table(upkeep: &Upkeep) -> String {
    match upkeep.pending() {
        Some(UpkeepStep::Count(statement)) => {
            assert_eq!(
                statement.sql,
                "SELECT COUNT(*) FROM information_schema.tables WHERE table_name = $1;"
            );
            shown(&statement.params).join(",")
        }
        other => panic!("{:?}", other),
    }
}

fn created_table(upkeep: &Upkeep) -> String {
    match upkeep.pending() {
        Some(UpkeepStep::Create(statement)) => {
            assert!(statement.params.is_empty());
            assert!(statement.sql.starts_with("CREATE TABLE nf_"));
            statement.sql[13..23].to_string()
        }
        other => panic!("{:?}", other),
    }
}

#[test]
fn table_is_created_only_after_a_count_of_zero() {
    let mut upkeep = Upkeep::new(2024, 12);
    assert_eq!(counted_table(&upkeep), "text nf_2024_12");
    // A creation that was not asked for is not taken note of.
    upkeep.report(UpkeepEvent::Created);
    assert_eq!(counted_table(&upkeep), "text nf_2024_12");
    upkeep.report(UpkeepEvent::Counted(1));
    assert_eq!(counted_table(&upkeep), "text nf_2025_01");
    upkeep.report(UpkeepEvent::Counted(0));
    assert_eq!(created_table(&upkeep), "nf_2025_01");
    // A count does not answer a creation.
    upkeep.report(UpkeepEvent::Counted(1));
    assert_eq!(created_table(&upkeep), "nf_2025_01");
    upkeep.report(UpkeepEvent::Created);
    assert!(upkeep.pending().is_none());
    upkeep.report(UpkeepEvent::Counted(0));
    assert!(upkeep.pending().is_none());
    assert!(Upkeep::new(2024, 13).pending().is_none());
}

#[test]
fn both_tables_are_created_where_both_are_missing() {
    let mut upkeep = Upkeep::new(2024, 5);
    assert_eq!(counted_table(&upkeep), "text nf_2024_05");
    upkeep.report(UpkeepEvent::Counted(0));
    assert_eq!(created_table(&upkeep), "nf_2024_05");
    upkeep.report(UpkeepEvent::Created);
    assert_eq!(counted_table(&upkeep), "text nf_2024_06");
    upkeep.report(UpkeepEvent::Counted(0));
    assert_eq!(created_table(&upkeep), "nf_2024_06");
    upkeep.report(UpkeepEvent::Created);
    assert!(upkeep.pending().is_none());
}

#[test]
fn shards_follow_one_another() {
    let starts: Vec<usize> = (0..=3).map(|k| start_of_shard(10, 3, k)).collect();
    assert_eq!(starts, vec![0, 4, 7, 10]);
    let starts: Vec<usize> = (0..=4).map(|k| start_of_shard(2, 4, k)).collect();
    assert_eq!(starts, vec![0, 1, 2, 2, 2]);
    let starts: Vec<usize> = (0..=2).map(|k| start_of_shard(0, 2, k)).collect();
    assert_eq!(starts, vec![0, 0, 0]);
    assert_eq!(start_of_shard(usize::MAX, 1, 1), usize::MAX);
    assert_eq!(start_of_shard(100, 100, 37), 37);
}

#[test]
fn each_shard_gets_a_cache_of_its_own() {
    let inside = Pattern::new(CAMPUS_ADDRESS_PATTERN).unwrap();
    let flows: Vec<NetflowV4> = (0..10)
        .map(|i| NetflowV4 {
            first: "2024-05-01T10:00:00".to_string(),
            last: "2024-05-01T10:00:01".to_string(),
            in_packets: 1,
            in_bytes: 1 << i,
            src4_addr: "8.8.8.8".to_string(),
            dst4_addr: "140.125.1.2".to_string(),
        })
        .collect();
    let mut caches = vec![AggregationCache::new()];
    cache_data_mt(3, flows, &inside, &mut caches);
    assert_eq!(caches.len(), 4);
    assert_eq!(caches[0].len(), 0);
    let held: Vec<i64> =
        caches[1..].iter().map(|cache| cache.entry(0).unwrap().1.external_in()).collect();
    assert_eq!(held, vec![0b1111, 0b1110000, 0b1110000000]);
    let mut none = Vec::new();
    cache_data_mt(2, Vec::new(), &inside, &mut none);
    assert_eq!(none.len(), 2);
    assert_eq!(none[0].len() + none[1].len(), 0);
}
