use std::cell::RefCell;
use std::rc::Rc;

use relm4_store::window::KeepOnBottom;
use relm4_store::window::KeepOnTop;
use relm4_store::window::PositionTrackingWindow;
use relm4_store::window::ValueTrackingWindow;
use relm4_store::window::WindowBehavior;
use relm4_store::DataStore;
use relm4_store::Position;
use relm4_store::Range;
use relm4_store::Record;
use relm4_store::RecordId;
use relm4_store::RecordWithLocation;
use relm4_store::StoreSize;
use relm4_store::StoreViewImplementation;
use relm4_store::StoreViewMsg;

#[derive(Debug, Clone, PartialEq)]
struct TestRecord {
    id: RecordId,
    description: String,
}

impl Record for TestRecord {
    fn id_of(&self) -> RecordId {
        self.id
    }

    fn get_id(&self) -> RecordId {
        self.id
    }
}

/// Records in store order, shared by a test and the view it drives.
#[derive(Clone)]
struct TestStore {
    records: Rc<RefCell<Vec<TestRecord>>>,
}

impl DataStore for TestStore {
    type Record = TestRecord;

    fn count(&self) -> usize {
        self.records.borrow().len()
    }

    fn lookup(&self, id: RecordId) -> Option<TestRecord> {
        self.records.borrow().iter().find(|r| r.id == id).cloned()
    }

    fn records_in(&self, range: Range) -> Vec<TestRecord> {
        let records = self.records.borrow();
        let start = *range.start();
        if start >= records.len() {
            return vec![];
        }
        let end = std::cmp::min(*range.end(), records.len());
        records[start..end].to_vec()
    }

    fn len(&self) -> usize {
        self.count()
    }

    fn is_empty(&self) -> bool {
        self.count() == 0
    }

    fn get(&self, id: &RecordId) -> Option<TestRecord> {
        self.lookup(*id)
    }

    fn get_range(&self, range: &Range) -> Vec<TestRecord> {
        self.records_in(*range)
    }
}

/// A store with records created in order (`data`) and a view on it.
struct Case<W: WindowBehavior> {
    data: Vec<TestRecord>,
    store: TestStore,
    view: StoreViewImplementation<TestStore, W>,
}

impl<W: WindowBehavior> Case<W> {
    /// `initial` records and a view of `size` records that has loaded its first page.
    fn new(initial: usize, size: StoreSize) -> Case<W> {
        let store = TestStore { records: Rc::new(RefCell::new(vec![])) };
        let mut case = Case { data: vec![], store: store.clone(), view: StoreViewImplementation::new(store, size.items()) };
        for _ in 0..initial {
            let r = case.create();
            case.store.records.borrow_mut().push(r);
        }
        case.view.redraw();
        case
    }

    fn create(&mut self) -> TestRecord {
        let n = self.data.len();
        let r = TestRecord { id: n as RecordId + 1, description: format!("Record #{}", n) };
        self.data.push(r.clone());
        r
    }

    /// Adds a new record to the store at `pos` and tells the view.
    fn add_at(&mut self, pos: usize) {
        let r = self.create();
        self.store.records.borrow_mut().insert(pos, r);
        self.view.inbox(StoreViewMsg::NewAt(Position(pos)));
    }

    /// Removes the record at `pos` of the store and tells the view.
    fn remove_at(&mut self, pos: usize) {
        self.store.records.borrow_mut().remove(pos);
        self.view.inbox(StoreViewMsg::Remove(Position(pos)));
    }

    /// Asks the view to show the records from `pos` on.
    fn slide(&mut self, pos: usize) {
        self.view.inbox(StoreViewMsg::SlideTo(Position(pos)));
    }

    /// Lets the view handle what it was told.
    fn redraw(&mut self) {
        self.view.redraw();
    }

    fn view_data(&self) -> Vec<RecordWithLocation<TestRecord>> {
        self.view.get_view_data()
    }
}

/// Builds the case, runs `steps` (each a list of insert positions) and checks the view after
/// each of them against the expected records of `expected`, given by creation index.
fn multistep_add<W: WindowBehavior>(
    initial: usize,
    size: usize,
    steps: &[&[usize]],
    expected: &[(usize, &[usize])],
) {
    let mut case: Case<W> = Case::new(initial, StoreSize::Items(size));
    assert_eq!(case.view.current_len(), std::cmp::min(initial, size));
    for (step, (first, records)) in steps.iter().zip(expected.iter()) {
        for pos in step.iter() {
            case.add_at(*pos);
        }
        case.redraw();
        assert_eq!(case.view.current_len(), records.len());
        let data = case.view_data();
        for (idx, r) in records.iter().enumerate() {
            assert_eq!(data[idx].position, Position(first + idx), "step {:?} index {}", step, idx);
            assert_eq!(data[idx].record, case.data[*r], "step {:?} index {}", step, idx);
        }
    }
}

#[test]
fn store_view_implementation_add_first_record() {
    let mut case: Case<ValueTrackingWindow> = Case::new(0, StoreSize::Items(10));
    assert!(case.view.current_len() == 0);
    case.add_at(0);
    assert!(case.view.inbox_queue_size() == 1);
    case.redraw();
    assert!(case.view.current_len() == 1);
    let data = case.view_data();
    assert!(data[0].position == Position(0));
}

#[test]
fn add_one_at_the_end_of_the_view() {
    let mut case: Case<KeepOnBottom> = Case::new(10, StoreSize::Items(10));
    case.add_at(10);
    case.redraw();
    assert_eq!(case.view.current_len(), 10);
    assert_eq!(case.view.get_window(), Range::new(1, 11));
    let data = case.view_data();
    assert_eq!(data[0].record, case.data[1]);
    assert_eq!(data[9].record, case.data[10]);
}

#[test]
fn add_one_in_the_second_half_of_the_view() {
    let mut case: Case<KeepOnBottom> = Case::new(10, StoreSize::Items(10));
    case.add_at(8);
    case.redraw();
    assert_eq!(case.view.current_len(), 10);
    assert_eq!(case.view.get_window(), Range::new(1, 11));
    let data = case.view_data();
    let expected = [1, 2, 3, 4, 5, 6, 7, 10, 8, 9];
    for idx in 0..10 {
        assert_eq!(data[idx].record, case.data[expected[idx]]);
    }
}

#[test]
fn add_five_at_the_end_of_the_view() {
    let mut case: Case<KeepOnBottom> = Case::new(10, StoreSize::Items(10));
    for pos in 10..15 {
        case.add_at(pos);
    }
    case.redraw();
    assert_eq!(case.view.current_len(), 10);
    assert_eq!(case.view.get_window(), Range::new(5, 15));
    let data = case.view_data();
    assert_eq!(data[0].record, case.data[5]);
    assert_eq!(data[9].record, case.data[14]);
}

/// The view shows `expected` (creation indexes) at positions `0..`.
fn check_view<W: WindowBehavior>(case: &Case<W>, expected: &[usize]) {
    assert_eq!(case.view.current_len(), expected.len());
    let data = case.view_data();
    assert_eq!(data.len(), expected.len());
    for (idx, r) in expected.iter().enumerate() {
        assert_eq!(data[idx].position, Position(idx));
        assert_eq!(data[idx].record, case.data[*r]);
    }
}

/// A view of the whole store of `initial` records after removing the record at `pos`.
fn remove_one<W: WindowBehavior>(initial: usize, pos: usize) -> Case<W> {
    let mut case: Case<W> = Case::new(initial, StoreSize::Unlimited);
    case.remove_at(pos);
    case.redraw();
    case
}

#[test]
fn remove_remove_last() {
    let case: Case<KeepOnTop> = remove_one(1, 0);
    check_view(&case, &[]);
}

#[test]
fn remove_remove_first_of_two() {
    let case: Case<KeepOnTop> = remove_one(2, 0);
    check_view(&case, &[1]);
}

#[test]
fn remove_remove_second_of_two() {
    let case: Case<KeepOnTop> = remove_one(2, 1);
    check_view(&case, &[0]);
}

#[test]
fn remove_remove_first_of_three() {
    let case: Case<KeepOnTop> = remove_one(3, 0);
    check_view(&case, &[1, 2]);
}

#[test]
fn remove_remove_second_of_three() {
    let case: Case<KeepOnTop> = remove_one(3, 1);
    check_view(&case, &[0, 2]);
}

#[test]
fn remove_remove_third_of_three() {
    let case: Case<KeepOnTop> = remove_one(3, 2);
    check_view(&case, &[0, 1]);
}

#[test]
fn value_tracking_window_remove_last() {
    let case: Case<ValueTrackingWindow> = remove_one(1, 0);
    check_view(&case, &[]);
}

#[test]
fn value_tracking_window_remove_first_of_two() {
    let case: Case<ValueTrackingWindow> = remove_one(2, 0);
    check_view(&case, &[1]);
}

#[test]
fn value_tracking_window_remove_second_of_two() {
    let case: Case<ValueTrackingWindow> = remove_one(2, 1);
    check_view(&case, &[0]);
}

#[test]
fn value_tracking_window_remove_first_of_three() {
    let case: Case<ValueTrackingWindow> = remove_one(3, 0);
    check_view(&case, &[1, 2]);
}

#[test]
fn value_tracking_window_remove_second_of_three() {
    let case: Case<ValueTrackingWindow> = remove_one(3, 1);
    check_view(&case, &[0, 2]);
}

#[test]
fn value_tracking_window_remove_third_of_three() {
    let case: Case<ValueTrackingWindow> = remove_one(3, 2);
    check_view(&case, &[0, 1]);
}

#[test]
fn remove_element_from_second_half() {
    let mut case: Case<ValueTrackingWindow> = Case::new(25, StoreSize::Items(10));
    case.remove_at(5);
    case.redraw();
    assert_eq!(case.view.current_len(), 10, "Store view must be full");
    let data = case.view_data();
    assert_eq!(data[9].position, Position(9));
    assert_eq!(data[9].record, case.data[10]);
}

#[test]
fn remove_element_from_first_half() {
    let mut case: Case<ValueTrackingWindow> = Case::new(25, StoreSize::Items(10));
    case.remove_at(4);
    case.redraw();
    assert_eq!(case.view.current_len(), 10, "Store view must be full");
    assert_eq!(case.view.get_window(), Range::new(0, 10));
    let data = case.view_data();
    assert_eq!(data[9].position, Position(9));
    assert_eq!(data[9].record, case.data[10]);
}

#[test]
fn remove_record_in_the_first_half_of_view() {
    let mut case: Case<ValueTrackingWindow> = Case::new(25, StoreSize::Items(10));
    case.view.next_page();
    case.redraw();
    case.remove_at(14);
    case.redraw();
    assert_eq!(case.view.current_len(), 10, "Store view must be full");
    assert_eq!(case.view.get_window(), Range::new(9, 19));
    let data = case.view_data();
    assert_eq!(data[0].position, Position(9));
    assert_eq!(data[0].record, case.data[9]);
    assert_eq!(data[9].position, Position(18));
    assert_eq!(data[9].record, case.data[19]);
}

/// Slides a view of 10 records on 30 to `first` and then to `second`.
fn slide_twice(first: usize, second: usize) {
    let mut case: Case<PositionTrackingWindow> = Case::new(30, StoreSize::Items(10));
    for target in [first, second] {
        case.slide(target);
        case.redraw();
        let data = case.view_data();
        for idx in 0..10 {
            assert_eq!(data[idx].record, case.data[idx + target]);
            assert_eq!(data[idx].position, Position(idx + target));
        }
    }
}

#[test]
fn slide_left_by_1_of_10() {
    slide_twice(15, 14);
}

#[test]
fn slide_left_by_5_of_10() {
    slide_twice(15, 10);
}

/// The view holds all records of the store after one insertion at `pos`.
fn add_one_unlimited(initial: usize, pos: usize, expected: &[usize]) {
    let mut case: Case<ValueTrackingWindow> = Case::new(initial, StoreSize::Unlimited);
    assert_eq!(case.view.current_len(), initial);
    case.add_at(pos);
    case.redraw();
    check_view(&case, expected);
}

#[test]
fn value_tracking_window_add_first_record() {
    add_one_unlimited(0, 0, &[0]);
}

#[test]
fn add_second_record_at_the_beginning() {
    add_one_unlimited(1, 0, &[1, 0]);
}

#[test]
fn add_second_record_at_the_end() {
    add_one_unlimited(1, 1, &[0, 1]);
}

#[test]
fn value_tracking_window_add_third_record_at_the_beginning() {
    add_one_unlimited(2, 0, &[2, 0, 1]);
}

#[test]
fn value_tracking_window_add_third_record_in_the_middle() {
    add_one_unlimited(2, 1, &[0, 2, 1]);
}

#[test]
fn value_tracking_window_add_third_record_at_the_end() {
    add_one_unlimited(2, 2, &[0, 1, 2]);
}

/// `|[ 0, 1 ]| -> |2, [ 0, 1 ]|`
#[test]
fn window_size_2_add_third_record_at_the_beginning() {
    multistep_add::<ValueTrackingWindow>(2, 2, &[&[0]], &[(1, &[0, 1])]);
}

/// `|[0, 1]| -> |[0, 2], 1|`
#[test]
fn window_size_2_add_third_record_in_the_middle() {
    multistep_add::<ValueTrackingWindow>(2, 2, &[&[1]], &[(0, &[0, 2])]);
}

/// `|[0, 1]| -> |[0, 1], 2|`
#[test]
fn window_size_2_add_third_record_at_the_end() {
    multistep_add::<ValueTrackingWindow>(2, 2, &[&[2]], &[(0, &[0, 1])]);
}

/// `|[ 0, 1 ]| -> |2, [ 0, 1 ]| -> |3, 2, [0, 1]|`
#[test]
fn add_multistep_to_initial_2_at_0_at_0() {
    multistep_add::<ValueTrackingWindow>(2, 2, &[&[0], &[0]], &[(1, &[0, 1]), (2, &[0, 1])]);
}

/// `|[ 0, 1 ]| -> |2, [ 0, 1 ]| -> |2, 3, [0, 1]|`
#[test]
fn add_multistep_to_initial_2_at_0_at_1() {
    multistep_add::<ValueTrackingWindow>(2, 2, &[&[0], &[1]], &[(1, &[0, 1]), (2, &[0, 1])]);
}

/// `|[ 0, 1 ]| -> |2, [ 0, 1 ]| -> |2, [0, 3], 1|`
#[test]
fn add_multistep_to_initial_2_at_0_at_2() {
    multistep_add::<ValueTrackingWindow>(2, 2, &[&[0], &[2]], &[(1, &[0, 1]), (1, &[0, 3])]);
}

/// `| 0, [ 1, 2 ]| -> | 0, [1, 3], 2|`
#[test]
fn simplify_add_multistep_to_initial_2_at_0_at_2() {
    let mut case: Case<ValueTrackingWindow> = Case::new(3, StoreSize::Items(2));
    case.view.set_window(Range::new(1, 3));
    case.redraw();
    case.add_at(2);
    case.redraw();
    assert_eq!(case.view.current_len(), 2);
    let data = case.view_data();
    assert!(data[0].position == Position(1), "At 0th step expected position 1 got {:?}", data[0].position);
    assert!(data[1].position == Position(2), "At 0th step expected position 2 got {:?}", data[1].position);
    assert!(data[0].record == case.data[1]);
    assert!(data[1].record == case.data[3]);
}

/// `|[ 0, 1 ]| -> |2, [ 0, 1 ]| -> |2, [0, 1], 3|`
#[test]
fn add_multistep_to_initial_2_at_0_at_3() {
    multistep_add::<ValueTrackingWindow>(2, 2, &[&[0], &[3]], &[(1, &[0, 1]), (1, &[0, 1])]);
}

/// `|[ 0, 1 ]| -> |[ 0, 2 ], 1| -> |3, [ 0, 2 ], 1|`
#[test]
fn add_multistep_to_initial_2_at_1_at_0() {
    multistep_add::<ValueTrackingWindow>(2, 2, &[&[1], &[0]], &[(0, &[0, 2]), (1, &[0, 2])]);
}

/// `|[ 0, 1 ]| -> |[ 0, 2 ], 1| -> |[ 0, 3 ], 2, 1|`
#[test]
fn add_multistep_to_initial_2_at_1_at_1() {
    multistep_add::<ValueTrackingWindow>(2, 2, &[&[1], &[1]], &[(0, &[0, 2]), (0, &[0, 3])]);
}

/// `|[ 0, 1 ]| -> |[ 0, 2 ], 1| -> |[ 0, 2 ], 3, 1|`
#[test]
fn add_multistep_to_initial_2_at_1_at_2() {
    multistep_add::<ValueTrackingWindow>(2, 2, &[&[1], &[2]], &[(0, &[0, 2]), (0, &[0, 2])]);
}

/// `|[ 0, 1 ]| -> |[ 0, 2 ], 1| -> |[ 0, 2 ], 1, 3|`
#[test]
fn add_multistep_to_initial_2_at_1_at_3() {
    multistep_add::<ValueTrackingWindow>(2, 2, &[&[1], &[3]], &[(0, &[0, 2]), (0, &[0, 2])]);
}

/// `|[ 0, 1 ]| -> |[ 0, 1], 2| -> |3, [ 0, 1 ], 2|`
#[test]
fn add_multistep_to_initial_2_at_2_at_0() {
    multistep_add::<ValueTrackingWindow>(2, 2, &[&[2], &[0]], &[(0, &[0, 1]), (1, &[0, 1])]);
}

/// `|[ 0, 1 ]| -> |[ 0, 1 ], 2| -> |[ 0, 3], 2, 1|`
#[test]
fn add_multistep_to_initial_2_at_2_at_1() {
    multistep_add::<ValueTrackingWindow>(2, 2, &[&[2], &[1]], &[(0, &[0, 1]), (0, &[0, 3])]);
}

/// `|[ 0, 1 ]| -> |[ 0, 1 ], 2| -> |[ 0, 1 ], 3, 2|`
#[test]
fn add_multistep_to_initial_2_at_2_at_2() {
    multistep_add::<ValueTrackingWindow>(2, 2, &[&[2], &[2]], &[(0, &[0, 1]), (0, &[0, 1])]);
}

/// `|[ 0, 1 ]| -> |[ 0, 1 ], 2| -> |[ 0, 1 ], 2, 3|`
#[test]
fn add_multistep_to_initial_2_at_2_at_3() {
    multistep_add::<ValueTrackingWindow>(2, 2, &[&[2], &[3]], &[(0, &[0, 1]), (0, &[0, 1])]);
}

/// `|[ 0, 1 ]| -> |[2,  0, 1 ]|`
#[test]
fn window_size_4_add_third_record_at_the_beginning() {
    multistep_add::<ValueTrackingWindow>(2, 4, &[&[0]], &[(0, &[2, 0, 1])]);
}

/// `|[0, 1, 2, 3]| -> |[4, 1, 2, 3]|`
#[test]
fn add_fourth_record_at_1() {
    multistep_add::<ValueTrackingWindow>(4, 4, &[&[1]], &[(1, &[4, 1, 2, 3])]);
}

/// The window moves left with its records; the record at store position 9 is then the one
/// created tenth from the start, as record 5 left.
#[test]
fn remove_record_to_the_left_of_view() {
    let mut case: Case<ValueTrackingWindow> = Case::new(25, StoreSize::Items(10));
    case.view.next_page();
    case.redraw();
    case.remove_at(5);
    case.redraw();
    assert_eq!(case.view.current_len(), 10, "Store view must be full");
    assert_eq!(case.view.get_window(), Range::new(9, 19));
    let data = case.view_data();
    assert_eq!(data[0].position, Position(9));
    assert_eq!(data[9].position, Position(18));
    assert_eq!(data[9].record, case.data[19]);
}
