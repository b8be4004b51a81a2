use std::collections::BTreeMap;

use ape_dts::error::Error;
use ape_dts::meta::col_value::{ColMap, ColValue};
use ape_dts::meta::row_data::RowData;
use ape_dts::sinker::base_sinker::{
    classify, plan_chunks, Awaiting, BatchSinker, ChunkKind, ChunkRange, Outcome, SinkAction,
};

fn image(id: i32, v: &str) -> ColMap {
    let mut m = ColMap::new();
    m.insert("id".to_string(), ColValue::Long(id));
    m.insert("v".to_string(), ColValue::String(v.to_string()));
    m
}

fn insert(id: i32, v: &str) -> RowData {
    RowData::new_insert("s".to_string(), "t".to_string(), image(id, v), 1)
}

fn update(id: i32, v: &str) -> RowData {
    RowData::new_update("s".to_string(), "t".to_string(), image(id, "old"), image(id, v), 1)
}

fn delete(id: i32) -> RowData {
    RowData::new_delete("s".to_string(), "t".to_string(), image(id, "gone"), 1)
}

fn id_of(m: &ColMap) -> i32 {
    match m.get("id") {
        Some(ColValue::Long(id)) => *id,
        _ => panic!("row without id"),
    }
}

fn v_of(m: &ColMap) -> String {
    match m.get("v") {
        Some(ColValue::String(v)) => v.clone(),
        _ => panic!("row without v"),
    }
}

/// A destination that keeps rows by id. It rejects a bulk upsert that
/// holds an id named in `conflicts`, after applying the rows before it.
struct Dest {
    rows: BTreeMap<i32, String>,
    conflicts: Vec<i32>,
    bulk_calls: usize,
    single_calls: usize,
}

impl Dest {
    fn new(conflicts: Vec<i32>) -> Dest {
        Dest { rows: BTreeMap::new(), conflicts, bulk_calls: 0, single_calls: 0 }
    }

    fn apply(&mut self, row: &RowData) {
        if let Some(after) = &row.after {
            self.rows.insert(id_of(after), v_of(after));
        } else if let Some(before) = &row.before {
            self.rows.remove(&id_of(before));
        }
    }

    fn perform(&mut self, rows: &Vec<RowData>, action: SinkAction) -> Outcome {
        match action {
            SinkAction::BulkUpsert { start, len } | SinkAction::BulkDelete { start, len } => {
                self.bulk_calls += 1;
                for row in &rows[start..start + len] {
                    let id = match (&row.after, &row.before) {
                        (Some(a), _) => id_of(a),
                        (None, Some(b)) => id_of(b),
                        _ => panic!("row without image"),
                    };
                    if self.conflicts.contains(&id) {
                        return Outcome::Rejected;
                    }
                    self.apply(row);
                }
                Outcome::Applied
            }
            SinkAction::Upsert { index } | SinkAction::Delete { index } => {
                self.single_calls += 1;
                self.apply(&rows[index]);
                Outcome::Applied
            }
            SinkAction::Finished | SinkAction::Failed(_) => panic!("nothing to perform"),
        }
    }
}

fn run(sinker: &mut BatchSinker, rows: &Vec<RowData>, dest: &mut Dest) -> Vec<SinkAction> {
    let mut trace = Vec::new();
    let mut action = sinker.begin(rows);
    loop {
        trace.push(action);
        match action {
            SinkAction::Finished | SinkAction::Failed(_) => return trace,
            _ => {
                let outcome = dest.perform(rows, action);
                action = sinker.resume(rows, outcome);
            }
        }
    }
}

fn serially(rows: &Vec<RowData>) -> BTreeMap<i32, String> {
    let mut dest = Dest::new(Vec::new());
    for row in rows {
        dest.apply(row);
    }
    dest.rows
}

#[test]
fn chunks_are_classified() {
    let rows = vec![insert(1, "a"), insert(2, "b"), delete(3), delete(4), update(5, "c"), insert(6, "d")];
    assert_eq!(classify(&rows, 0, 2), ChunkKind::InsertOnly);
    assert_eq!(classify(&rows, 2, 2), ChunkKind::DeleteOnly);
    assert_eq!(classify(&rows, 1, 2), ChunkKind::Mixed);
    assert_eq!(classify(&rows, 4, 1), ChunkKind::Mixed);
    assert_eq!(classify(&rows, 4, 2), ChunkKind::Mixed);
    assert_eq!(classify(&rows, 0, 0), ChunkKind::InsertOnly);
}

#[test]
fn batch_is_cut_into_chunks() {
    assert_eq!(
        plan_chunks(7, 3),
        vec![
            ChunkRange { start: 0, len: 3 },
            ChunkRange { start: 3, len: 3 },
            ChunkRange { start: 6, len: 1 }
        ]
    );
    assert_eq!(plan_chunks(6, 3), vec![ChunkRange { start: 0, len: 3 }, ChunkRange { start: 3, len: 3 }]);
    assert_eq!(plan_chunks(2, 5), vec![ChunkRange { start: 0, len: 2 }]);
    assert_eq!(plan_chunks(0, 5), Vec::<ChunkRange>::new());
    assert_eq!(plan_chunks(2, 0), vec![ChunkRange { start: 0, len: 1 }, ChunkRange { start: 1, len: 1 }]);
}

#[test]
fn empty_batch_is_finished_at_once() {
    let rows: Vec<RowData> = Vec::new();
    let mut sinker = BatchSinker::batched(10);
    assert_eq!(sinker.begin(&rows), SinkAction::Finished);
    assert_eq!(sinker.resume(&rows, Outcome::Applied), SinkAction::Finished);
}

#[test]
fn inserts_go_out_in_bulk() {
    let rows = vec![insert(1, "a"), insert(2, "b"), insert(3, "c"), insert(4, "d"), insert(5, "e")];
    let mut sinker = BatchSinker::batched(2);
    let mut dest = Dest::new(Vec::new());
    let trace = run(&mut sinker, &rows, &mut dest);
    assert_eq!(
        trace,
        vec![
            SinkAction::BulkUpsert { start: 0, len: 2 },
            SinkAction::BulkUpsert { start: 2, len: 2 },
            SinkAction::BulkUpsert { start: 4, len: 1 },
            SinkAction::Finished
        ]
    );
    assert_eq!(dest.rows, serially(&rows));
    assert_eq!(dest.rows.len(), 5);
}

#[test]
fn deletes_go_out_in_bulk() {
    let rows = vec![delete(1), delete(2), delete(3)];
    let mut sinker = BatchSinker::batched(2);
    let mut dest = Dest::new(Vec::new());
    dest.rows.insert(1, "x".to_string());
    dest.rows.insert(2, "y".to_string());
    dest.rows.insert(9, "z".to_string());
    let trace = run(&mut sinker, &rows, &mut dest);
    assert_eq!(
        trace,
        vec![
            SinkAction::BulkDelete { start: 0, len: 2 },
            SinkAction::BulkDelete { start: 2, len: 1 },
            SinkAction::Finished
        ]
    );
    assert_eq!(dest.rows.keys().cloned().collect::<Vec<i32>>(), vec![9]);
}

#[test]
fn mixed_chunk_goes_record_by_record() {
    let rows = vec![insert(1, "a"), update(1, "b"), delete(1), insert(2, "c")];
    let mut sinker = BatchSinker::batched(3);
    let mut dest = Dest::new(Vec::new());
    let trace = run(&mut sinker, &rows, &mut dest);
    assert_eq!(
        trace,
        vec![
            SinkAction::Upsert { index: 0 },
            SinkAction::Upsert { index: 1 },
            SinkAction::Delete { index: 2 },
            SinkAction::BulkUpsert { start: 3, len: 1 },
            SinkAction::Finished
        ]
    );
    assert_eq!(dest.rows, serially(&rows));
}

#[test]
fn serial_machine_never_uses_bulk() {
    let rows = vec![insert(1, "a"), insert(2, "b"), delete(1)];
    let mut sinker = BatchSinker::serial();
    let mut dest = Dest::new(Vec::new());
    let trace = run(&mut sinker, &rows, &mut dest);
    assert_eq!(
        trace,
        vec![
            SinkAction::Upsert { index: 0 },
            SinkAction::Upsert { index: 1 },
            SinkAction::Delete { index: 2 },
            SinkAction::Finished
        ]
    );
    assert_eq!(dest.bulk_calls, 0);
    assert_eq!(dest.rows, serially(&rows));
}

#[test]
fn conflict_in_bulk_insert_loses_no_row() {
    let rows = vec![insert(1, "a"), insert(2, "b"), insert(3, "c")];
    let mut sinker = BatchSinker::batched(3);
    let mut dest = Dest::new(vec![2]);
    dest.rows.insert(2, "stale".to_string());
    let trace = run(&mut sinker, &rows, &mut dest);
    assert_eq!(
        trace,
        vec![
            SinkAction::BulkUpsert { start: 0, len: 3 },
            SinkAction::Upsert { index: 0 },
            SinkAction::Upsert { index: 1 },
            SinkAction::Upsert { index: 2 },
            SinkAction::Finished
        ]
    );
    assert_eq!(dest.rows.len(), 3);
    assert_eq!(dest.rows.get(&1), Some(&"a".to_string()));
    assert_eq!(dest.rows.get(&2), Some(&"b".to_string()));
    assert_eq!(dest.rows.get(&3), Some(&"c".to_string()));
    assert_eq!(dest.rows, serially(&rows));
}

#[test]
fn fallback_leaves_what_serial_application_leaves() {
    let rows = vec![
        insert(1, "a"), insert(2, "b"), insert(3, "c"), insert(4, "d"), insert(2, "e"), insert(5, "f"),
        insert(6, "g"),
    ];
    for batch_size in 1..=8 {
        for conflicts in [vec![], vec![1], vec![2], vec![3, 5], vec![1, 2, 3, 4, 5, 6]] {
            let mut sinker = BatchSinker::batched(batch_size);
            let mut dest = Dest::new(conflicts.clone());
            let trace = run(&mut sinker, &rows, &mut dest);
            assert_eq!(*trace.last().unwrap(), SinkAction::Finished);
            assert_eq!(dest.rows, serially(&rows), "batch size {} conflicts {:?}", batch_size, conflicts);
        }
    }
}

#[test]
fn second_delivery_changes_nothing() {
    let rows = vec![insert(1, "a"), insert(2, "b"), insert(1, "c"), insert(3, "d")];
    let mut dest = Dest::new(vec![1]);
    let mut sinker = BatchSinker::batched(2);
    run(&mut sinker, &rows, &mut dest);
    let once = dest.rows.clone();
    let mut again = BatchSinker::batched(3);
    run(&mut again, &rows, &mut dest);
    assert_eq!(dest.rows, once);
    assert_eq!(once.get(&1), Some(&"c".to_string()));
}

#[test]
fn lost_connection_fails_the_batch() {
    let rows = vec![insert(1, "a"), insert(2, "b")];
    let mut sinker = BatchSinker::batched(2);
    assert_eq!(sinker.begin(&rows), SinkAction::BulkUpsert { start: 0, len: 2 });
    assert_eq!(sinker.resume(&rows, Outcome::Lost), SinkAction::Failed(Error::ConnectionClosed));
    assert_eq!(sinker.next, 0);
    assert_eq!(sinker.awaiting, Awaiting::Bulk { len: 2 });
    assert_eq!(sinker.resume(&rows, Outcome::Rejected), SinkAction::Upsert { index: 0 });
    assert_eq!(sinker.resume(&rows, Outcome::Lost), SinkAction::Failed(Error::ConnectionClosed));
}

#[test]
fn rejected_single_record_fails_the_batch() {
    let rows = vec![insert(1, "a"), delete(2)];
    let mut sinker = BatchSinker::batched(2);
    assert_eq!(sinker.begin(&rows), SinkAction::Upsert { index: 0 });
    assert_eq!(sinker.resume(&rows, Outcome::Applied), SinkAction::Delete { index: 1 });
    assert_eq!(sinker.resume(&rows, Outcome::Rejected), SinkAction::Failed(Error::DestinationRejected));
    assert_eq!(sinker.next, 1);
}

#[test]
fn zero_batch_size_counts_as_one() {
    let rows = vec![insert(1, "a"), insert(2, "b")];
    let mut sinker = BatchSinker::batched(0);
    assert_eq!(sinker.batch_size, 1);
    let mut dest = Dest::new(Vec::new());
    let trace = run(&mut sinker, &rows, &mut dest);
    assert_eq!(
        trace,
        vec![
            SinkAction::BulkUpsert { start: 0, len: 1 },
            SinkAction::BulkUpsert { start: 1, len: 1 },
            SinkAction::Finished
        ]
    );
    let mut odd = BatchSinker { batch_size: 0, serial: false, next: 7, serial_until: 9, awaiting: Awaiting::Single };
    assert_eq!(odd.begin(&rows), SinkAction::BulkUpsert { start: 0, len: 1 });
    assert_eq!(odd.batch_size, 1);
}
