use relm4_store::DataContainer;
use relm4_store::Record;
use relm4_store::RecordId;
use relm4_store::WindowChangeset;

#[derive(Debug, Clone, PartialEq)]
struct TestRecord {
    id: RecordId,
    description: String,
}

impl TestRecord {
    fn new(id: RecordId, description: &str) -> TestRecord {
        TestRecord { id, description: String::from(description) }
    }
}

impl Record for TestRecord {
    fn id_of(&self) -> RecordId {
        self.id
    }

    fn get_id(&self) -> RecordId {
        self.id
    }
}

/// A container of capacity `max_size` filled with `records_cnt` records inserted at 0.
fn filled(records_cnt: usize, max_size: usize) -> (Vec<TestRecord>, DataContainer<TestRecord>) {
    let mut dc: DataContainer<TestRecord> = DataContainer::new(max_size);
    let mut changeset = WindowChangeset::default();
    let mut records: Vec<TestRecord> = Vec::new();
    for idx in 0..records_cnt {
        records.push(TestRecord::new(idx as RecordId + 1, &format!("Record #{}", idx + 1)));
    }
    dc.insert_right(&mut changeset, 0, records.clone());
    assert_eq!(dc.len(), records_cnt);
    for idx in 0..records_cnt {
        let r = &records[idx];
        assert_eq!(dc.get_record(&r.get_id()), Some(r));
        assert_eq!(*dc.get_order_idx(idx), r.get_id());
    }
    (records, dc)
}

#[test]
fn insert_right_first_record() {
    let mut dc: DataContainer<TestRecord> = DataContainer::new(10);
    let mut changeset = WindowChangeset::default();
    let record = TestRecord::new(1, "First record to add");
    dc.insert_right(&mut changeset, 0, vec![record.clone()]);
    assert!(dc.invariants());
    assert_eq!(dc.get_record(&record.get_id()), Some(&record));
    assert_eq!(*dc.get_order_idx(0), record.get_id());
}

#[test]
fn insert_left_first_record_at_0() {
    let mut dc: DataContainer<TestRecord> = DataContainer::new(10);
    let mut changeset = WindowChangeset::default();
    let record = TestRecord::new(1, "First record to add");
    dc.insert_left(&mut changeset, 0, vec![record.clone()]);
    assert!(dc.invariants());
    assert_eq!(dc.len(), 0);
    assert_eq!(dc.get_record(&record.get_id()), None);
    assert_eq!(dc.ordered_record_ids().len(), 0);
}

#[test]
fn insert_left_first_record_at_1() {
    let mut dc: DataContainer<TestRecord> = DataContainer::new(10);
    let mut changeset = WindowChangeset::default();
    let record = TestRecord::new(1, "First record to add");
    dc.insert_left(&mut changeset, 1, vec![record.clone()]);
    assert!(dc.invariants());
    assert_eq!(dc.len(), 1);
    assert_eq!(dc.get_record(&record.get_id()), Some(&record));
    assert_eq!(*dc.get_order_idx(0), record.get_id());
}

#[test]
fn insert_left_second_two_records() {
    let mut dc: DataContainer<TestRecord> = DataContainer::new(10);
    let mut changeset = WindowChangeset::default();
    let record1 = TestRecord::new(1, "First record to add");
    let record2 = TestRecord::new(2, "Second record to add");
    dc.insert_left(&mut changeset, 2, vec![record1.clone(), record2.clone()]);
    assert!(dc.invariants());
    assert_eq!(dc.len(), 2);
    assert_eq!(dc.get_record(&record1.get_id()), Some(&record1));
    assert_eq!(dc.get_record(&record2.get_id()), Some(&record2));
    assert_eq!(*dc.get_order_idx(0), record1.get_id());
    assert_eq!(*dc.get_order_idx(1), record2.get_id());
}

#[test]
fn insert_left_three_records() {
    let mut dc: DataContainer<TestRecord> = DataContainer::new(10);
    let mut changeset = WindowChangeset::default();
    let record1 = TestRecord::new(1, "First record to add");
    let record2 = TestRecord::new(2, "Second record to add");
    let record3 = TestRecord::new(3, "Third record to add");
    dc.insert_left(&mut changeset, 3, vec![record1.clone(), record2.clone(), record3.clone()]);
    assert!(dc.invariants());
    assert_eq!(dc.len(), 3);
    assert_eq!(dc.get_record(&record1.get_id()), Some(&record1));
    assert_eq!(dc.get_record(&record2.get_id()), Some(&record2));
    assert_eq!(dc.get_record(&record3.get_id()), Some(&record3));
    assert_eq!(*dc.get_order_idx(0), record1.get_id());
    assert_eq!(*dc.get_order_idx(1), record2.get_id());
    assert_eq!(*dc.get_order_idx(2), record3.get_id());
}

#[test]
fn add_at_max_elements_0() {
    let (records, mut container) = filled(3, 3);
    let mut changeset = WindowChangeset::default();
    let position = records.len();
    container.insert_left(&mut changeset, position, vec![]);
    assert_eq!(container.len(), 3);
    assert_eq!(container.get_record(&records[0].get_id()), Some(&records[0]));
    assert_eq!(container.get_record(&records[1].get_id()), Some(&records[1]));
    assert_eq!(container.get_record(&records[2].get_id()), Some(&records[2]));
    assert_eq!(*container.get_order_idx(0), records[0].get_id());
    assert_eq!(*container.get_order_idx(1), records[1].get_id());
    assert_eq!(*container.get_order_idx(2), records[2].get_id());
}

/// `|1, 2, 3| -> |2, 3, 4|`
#[test]
fn add_at_max_elements_1() {
    let (records, mut container) = filled(3, 3);
    let mut changeset = WindowChangeset::default();
    let new_record = TestRecord::new(101, "Record added at pos 0");
    let position = records.len();
    container.insert_left(&mut changeset, position, vec![new_record.clone()]);
    assert_eq!(container.len(), 3);
    assert_eq!(container.get_record(&new_record.get_id()), Some(&new_record));
    assert_eq!(container.get_record(&records[1].get_id()), Some(&records[1]));
    assert_eq!(container.get_record(&records[2].get_id()), Some(&records[2]));
    assert_eq!(*container.get_order_idx(0), records[1].get_id());
    assert_eq!(*container.get_order_idx(1), records[2].get_id());
    assert_eq!(*container.get_order_idx(2), new_record.get_id());
}

/// `|1, 2, 3| -> |3, 4, 5|`
#[test]
fn add_at_max_elements_2() {
    let (records, mut container) = filled(3, 3);
    let mut changeset = WindowChangeset::default();
    let new_record1 = TestRecord::new(101, "Record added at pos 0 - 0");
    let new_record2 = TestRecord::new(102, "Record added at pos 0 - 1");
    let position = records.len();
    container.insert_left(&mut changeset, position, vec![new_record1.clone(), new_record2.clone()]);
    assert_eq!(container.len(), 3);
    assert_eq!(container.get_record(&new_record1.get_id()), Some(&new_record1));
    assert_eq!(container.get_record(&new_record2.get_id()), Some(&new_record2));
    assert_eq!(container.get_record(&records[2].get_id()), Some(&records[2]));
    assert_eq!(*container.get_order_idx(0), records[2].get_id());
    assert_eq!(*container.get_order_idx(1), new_record1.get_id());
    assert_eq!(*container.get_order_idx(2), new_record2.get_id());
}

#[test]
fn add_at_max_elements_3() {
    let (records, mut container) = filled(3, 3);
    let mut changeset = WindowChangeset::default();
    let new_record1 = TestRecord::new(101, "Record added at pos 0 - 0");
    let new_record2 = TestRecord::new(102, "Record added at pos 0 - 1");
    let new_record3 = TestRecord::new(103, "Record added at pos 0 - 2");
    let new_records = vec![new_record1.clone(), new_record2.clone(), new_record3.clone()];
    let position = records.len();
    container.insert_left(&mut changeset, position, new_records);
    assert_eq!(container.len(), 3);
    assert_eq!(container.get_record(&new_record1.get_id()), Some(&new_record1));
    assert_eq!(container.get_record(&new_record2.get_id()), Some(&new_record2));
    assert_eq!(container.get_record(&new_record3.get_id()), Some(&new_record3));
    assert_eq!(*container.get_order_idx(0), new_record1.get_id());
    assert_eq!(*container.get_order_idx(1), new_record2.get_id());
    assert_eq!(*container.get_order_idx(2), new_record3.get_id());
}

#[test]
fn add_at_max_elements_4() {
    let (records, mut container) = filled(3, 3);
    let mut changeset = WindowChangeset::default();
    let new_record1 = TestRecord::new(101, "Record added at pos 0 - 0");
    let new_record2 = TestRecord::new(102, "Record added at pos 0 - 1");
    let new_record3 = TestRecord::new(103, "Record added at pos 0 - 2");
    let new_record4 = TestRecord::new(104, "Record outside of the view - 1");
    let new_records = vec![
        new_record1.clone(),
        new_record2.clone(),
        new_record3.clone(),
        new_record4.clone(),
    ];
    let position = records.len();
    container.insert_left(&mut changeset, position, new_records);
    assert_eq!(container.len(), 3);
    assert_eq!(container.get_record(&new_record2.get_id()), Some(&new_record2));
    assert_eq!(container.get_record(&new_record3.get_id()), Some(&new_record3));
    assert_eq!(container.get_record(&new_record4.get_id()), Some(&new_record4));
    assert_eq!(*container.get_order_idx(0), new_record2.get_id());
    assert_eq!(*container.get_order_idx(1), new_record3.get_id());
    assert_eq!(*container.get_order_idx(2), new_record4.get_id());
}

#[test]
fn add_at_max_elements_5() {
    let (records, mut container) = filled(3, 3);
    let mut changeset = WindowChangeset::default();
    let new_record1 = TestRecord::new(101, "Record added at pos 0 - 0");
    let new_record2 = TestRecord::new(102, "Record added at pos 0 - 1");
    let new_record3 = TestRecord::new(103, "Record added at pos 0 - 2");
    let new_record4 = TestRecord::new(104, "Record outside of the view - 1");
    let new_record5 = TestRecord::new(105, "Record outside of the view - 2");
    let new_records = vec![
        new_record1.clone(),
        new_record2.clone(),
        new_record3.clone(),
        new_record4.clone(),
        new_record5.clone(),
    ];
    let position = records.len();
    container.insert_left(&mut changeset, position, new_records);
    assert_eq!(container.len(), 3);
    assert_eq!(container.get_record(&new_record3.get_id()), Some(&new_record3));
    assert_eq!(container.get_record(&new_record4.get_id()), Some(&new_record4));
    assert_eq!(container.get_record(&new_record5.get_id()), Some(&new_record5));
    assert_eq!(*container.get_order_idx(0), new_record3.get_id());
    assert_eq!(*container.get_order_idx(1), new_record4.get_id());
    assert_eq!(*container.get_order_idx(2), new_record5.get_id());
}

#[test]
fn add_at_1() {
    let (records, mut container) = filled(3, 3);
    let mut changeset = WindowChangeset::default();
    let new_record = TestRecord::new(101, "Record added at pos 0");
    container.insert_left(&mut changeset, 1, vec![new_record.clone()]);
    assert_eq!(container.len(), 3);
    assert_eq!(container.get_record(&new_record.get_id()), Some(&new_record));
    assert_eq!(container.get_record(&records[1].get_id()), Some(&records[1]));
    assert_eq!(container.get_record(&records[2].get_id()), Some(&records[2]));
    assert_eq!(*container.get_order_idx(0), new_record.get_id());
    assert_eq!(*container.get_order_idx(1), records[1].get_id());
    assert_eq!(*container.get_order_idx(2), records[2].get_id());
}

#[test]
fn add_at_2() {
    let (records, mut container) = filled(3, 3);
    let mut changeset = WindowChangeset::default();
    let new_record = TestRecord::new(101, "Record added at pos 1");
    container.insert_left(&mut changeset, 2, vec![new_record.clone()]);
    assert_eq!(container.len(), 3);
    assert_eq!(container.get_record(&new_record.get_id()), Some(&new_record));
    assert_eq!(container.get_record(&records[1].get_id()), Some(&records[1]));
    assert_eq!(container.get_record(&records[2].get_id()), Some(&records[2]));
    assert_eq!(*container.get_order_idx(0), records[1].get_id());
    assert_eq!(*container.get_order_idx(1), new_record.get_id());
    assert_eq!(*container.get_order_idx(2), records[2].get_id());
}
