use std::cell::RefCell;
use std::collections::HashSet;
use std::rc::Rc;

use relm4_store::math::Point;
use relm4_store::window::KeepOnBottom;
use relm4_store::window::KeepOnTop;
use relm4_store::window::PositionTrackingWindow;
use relm4_store::window::StoreState;
use relm4_store::window::ValueTrackingWindow;
use relm4_store::window::WindowBehavior;
use relm4_store::window::WindowTransition;
use relm4_store::DataContainer;
use relm4_store::DataStore;
use relm4_store::Pagination;
use relm4_store::Position;
use relm4_store::Range;
use relm4_store::Record;
use relm4_store::RecordId;
use relm4_store::RecordWithLocation;
use relm4_store::StoreSize;
use relm4_store::StoreViewImplementation;
use relm4_store::StoreViewMsg;
use relm4_store::WindowChangeset;
use relm4_store::plan_redraw;

#[derive(Debug, Clone, PartialEq)]
struct Item {
    id: RecordId,
    label: String,
}

impl Record for Item {
    fn id_of(&self) -> RecordId {
        self.id
    }

    fn get_id(&self) -> RecordId {
        self.id
    }
}

fn item(id: RecordId) -> Item {
    Item { id, label: format!("item {}", id) }
}

/// Records in store order, shared by a test and the view it drives.
#[derive(Clone)]
struct Shared {
    records: Rc<RefCell<Vec<Item>>>,
}

impl Shared {
    /// A store holding records with identifiers `1..=n`.
    fn with(n: usize) -> Shared {
        Shared { records: Rc::new(RefCell::new((1..=n as RecordId).map(item).collect())) }
    }
}

impl DataStore for Shared {
    type Record = Item;

    fn count(&self) -> usize {
        self.records.borrow().len()
    }

    fn lookup(&self, id: RecordId) -> Option<Item> {
        self.records.borrow().iter().find(|r| r.id == id).cloned()
    }

    fn records_in(&self, range: Range) -> Vec<Item> {
        let records = self.records.borrow();
        let start = *range.start();
        if start >= records.len() {
            return vec![];
        }
        let end = std::cmp::min(*range.end(), records.len());
        records[start..end].to_vec()
    }

    fn len(&self) -> usize {
        self.count()
    }

    fn is_empty(&self) -> bool {
        self.count() == 0
    }

    fn get(&self, id: &RecordId) -> Option<Item> {
        self.lookup(*id)
    }

    fn get_range(&self, range: &Range) -> Vec<Item> {
        self.records_in(*range)
    }
}

/// A loaded view of `size` records on a store of `n` records.
fn loaded<W: WindowBehavior>(n: usize, size: usize) -> (Shared, StoreViewImplementation<Shared, W>) {
    let store = Shared::with(n);
    let mut view = StoreViewImplementation::new(store.clone(), size);
    view.redraw();
    (store, view)
}

fn view_ids<W: WindowBehavior>(view: &StoreViewImplementation<Shared, W>) -> Vec<RecordId> {
    view.get_view_data().iter().map(|r| r.record.id).collect()
}

#[test]
fn range_text() {
    assert_eq!(Range::new(10, 20).to_string(), "Range(10..20)");
    assert_eq!(Range::new(0, 0).to_string(), "Range(0..0)");
    assert_eq!(Point::new(7).to_string(), "Point(7)");
}

#[test]
fn range_new_orders_its_ends() {
    assert_eq!(Range::new(20, 10), Range::new(10, 20));
    assert_eq!(*Range::new(20, 10).start(), 10);
    assert_eq!(*Range::new(20, 10).end(), 20);
    assert_eq!(Range::new(20, 10).len(), 10);
    assert!(Range::new(5, 5).is_empty());
    assert!(!Range::new(5, 6).is_empty());
}

#[test]
fn range_moves() {
    let r = Range::new(10, 20);
    assert_eq!(r.slide(3), Range::new(3, 13));
    assert_eq!(r.to_right(5), Range::new(15, 25));
    assert_eq!(r.to_left(5), Range::new(5, 15));
    assert_eq!(r.to_left(50), Range::new(0, 10));
    assert_eq!(r.to_right(7).to_left(7), r);
}

#[test]
fn common_part_is_symmetric() {
    let a = Range::new(10, 20);
    let b = Range::new(15, 25);
    assert_eq!(a.common_part(&b), Some(Range::new(15, 20)));
    assert_eq!(b.common_part(&a), Some(Range::new(15, 20)));
    assert_eq!(a.common_part(&a), Some(a));
    assert_eq!(Range::new(3, 3).common_part(&Range::new(3, 3)), None);
}

#[test]
fn point_compares_with_numbers() {
    let p = Point::new(7);
    assert!(p == 7);
    assert!(p < 8);
    assert!(p > 6);
    assert_eq!(*p, 7);
    assert_eq!(p.value(), 7);
    assert_eq!(Position(7).to_point().value(), 7);
}

#[test]
fn store_size_items() {
    assert_eq!(StoreSize::Unlimited.items(), usize::MAX);
    assert_eq!(StoreSize::Items(5).items(), 5);
    assert_eq!(StoreSize::from(9).items(), 9);
}

#[test]
fn store_size_refuses_negative() {
    assert_eq!(StoreSize::try_from(-1i64), Err("Size can't be negative"));
    assert_eq!(StoreSize::try_from(7i64), Ok(StoreSize::Items(7)));
    assert_eq!(StoreSize::try_from(0i64), Ok(StoreSize::Items(0)));
}

#[test]
fn position_arithmetic() {
    assert_eq!((Position(3) + 4) - 4, Position(3));
    assert_eq!(Position(3) + Position(4), Position(7));
    assert_eq!(Position(9) - Position(4), Position(5));
    assert_eq!(Position(9).get(), 9);
    assert_eq!(*Position(9), 9);
}

#[test]
fn record_with_location_compares() {
    let a = RecordWithLocation::new(Position(1), item(5));
    let b = RecordWithLocation::new(Position(2), Item { id: 5, label: String::from("other") });
    let c = RecordWithLocation::new(Position(0), item(6));
    assert!(a == b);
    assert!(a != c);
    assert_eq!(a.id, 5);
    assert_eq!(*b, Item { id: 5, label: String::from("other") });
    assert!(a < b);
    assert!(c < a);
}

#[test]
fn pages_of_the_store() {
    let (_store, view) = loaded::<PositionTrackingWindow>(25, 10);
    assert_eq!(view.total_pages(), 3);
    assert_eq!(view.current_page(), 1);
    let (_store, view) = loaded::<PositionTrackingWindow>(30, 10);
    assert_eq!(view.total_pages(), 3);
    let (_store, view) = loaded::<PositionTrackingWindow>(0, 10);
    assert_eq!(view.total_pages(), 0);
}

#[test]
fn next_page_then_prev_page() {
    let (_store, mut view) = loaded::<PositionTrackingWindow>(25, 10);
    view.next_page();
    assert_eq!(view.get_window(), Range::new(10, 20));
    assert_eq!(view.current_page(), 2);
    assert_eq!(view.inbox_queue_size(), 1);
    view.redraw();
    assert_eq!(view_ids(&view), (11..=20).collect::<Vec<RecordId>>());
    view.prev_page();
    assert_eq!(view.get_window(), Range::new(0, 10));
    view.prev_page();
    assert_eq!(view.get_window(), Range::new(0, 10));
}

#[test]
fn last_page_holds_last_record() {
    let (_store, mut view) = loaded::<PositionTrackingWindow>(25, 10);
    view.last_page();
    assert_eq!(view.get_window(), Range::new(20, 30));
    view.redraw();
    assert_eq!(view_ids(&view), (21..=25).collect::<Vec<RecordId>>());
    assert_eq!(view.current_len(), 5);
    view.first_page();
    assert_eq!(view.get_window(), Range::new(0, 10));
}

#[test]
fn view_of_the_store() {
    let (store, view) = loaded::<KeepOnTop>(25, 10);
    assert_eq!(view.len(), 25);
    assert!(!view.is_empty());
    assert_eq!(view.window_size(), 10);
    assert_eq!(view.get(&3), Some(item(3)));
    assert_eq!(view.get(&99), None);
    assert_eq!(view.get_range(&Range::new(2, 4)), vec![item(3), item(4)]);
    assert_eq!(view.get_range(&Range::new(30, 40)), vec![]);
    assert_eq!(view.get_position(&4), Some(Position(3)));
    assert_eq!(view.get_position(&11), None);
    assert_eq!(store.count(), 25);
}

#[test]
fn update_refreshes_the_record() {
    let (store, mut view) = loaded::<KeepOnTop>(5, 10);
    store.records.borrow_mut()[2].label = String::from("changed");
    view.inbox(StoreViewMsg::Update(3));
    let changeset = view.compile_changes();
    assert_eq!(changeset.ids_to_update, HashSet::from([3]));
    assert!(changeset.ids_to_add.is_empty());
    assert!(changeset.widgets_to_remove.is_empty());
    assert_eq!(view.get_view_data()[2].record.label, "changed");
}

#[test]
fn added_records_are_not_updated() {
    let (store, mut view) = loaded::<PositionTrackingWindow>(5, 10);
    store.records.borrow_mut().insert(1, item(6));
    view.inbox(StoreViewMsg::NewAt(Position(1)));
    view.inbox(StoreViewMsg::Update(6));
    let changeset = view.compile_changes();
    assert_eq!(changeset.ids_to_add, HashSet::from([6]));
    assert!(!changeset.ids_to_update.contains(&6));
    assert_eq!(view_ids(&view), vec![1, 6, 2, 3, 4, 5]);
}

#[test]
fn reload_marks_the_changeset() {
    let (_store, mut view) = loaded::<KeepOnTop>(3, 10);
    view.inbox(StoreViewMsg::Reload);
    let changeset = view.compile_changes();
    assert!(changeset.reload);
    assert_eq!(changeset.ids_to_update, HashSet::from([1, 2, 3]));
    assert_eq!(view.inbox_queue_size(), 0);
}

#[test]
fn redraw_without_messages_does_nothing() {
    let (_store, mut view) = loaded::<KeepOnTop>(3, 10);
    assert!(view.redraw().is_none());
    assert_eq!(view_ids(&view), vec![1, 2, 3]);
}

#[test]
fn redraw_plan_after_insert() {
    let (store, mut view) = loaded::<PositionTrackingWindow>(3, 3);
    store.records.borrow_mut().insert(1, item(4));
    view.inbox(StoreViewMsg::NewAt(Position(1)));
    let plan = view.redraw().unwrap();
    assert_eq!(plan.dropped, vec![3]);
    assert_eq!(plan.records.len(), 3);
    assert_eq!(plan.records[0].id, 1);
    assert_eq!(plan.records[1].id, 4);
    assert!(plan.records[1].create);
    assert_eq!(plan.records[1].after, Some(1));
    assert_eq!(plan.records[1].position, Position(1));
    assert_eq!(plan.records[2].id, 2);
    assert!(plan.records[2].refresh);
    assert!(plan.records[2].reattach);
    assert_eq!(plan.records[0].after, None);
}

#[test]
fn plan_redraw_of_a_changeset() {
    let mut changeset = WindowChangeset::default();
    changeset.ids_to_add.insert(9);
    changeset.ids_to_update.insert(2);
    changeset.widgets_to_remove.insert(1);
    let plan = plan_redraw(&vec![1, 2], &vec![2, 9], &changeset, 5);
    assert_eq!(plan.dropped, vec![1]);
    assert_eq!(plan.records[0].position, Position(5));
    assert!(plan.records[0].refresh && plan.records[0].reattach && !plan.records[0].create);
    assert_eq!(plan.records[1].position, Position(6));
    assert!(plan.records[1].create && !plan.records[1].refresh);
    assert_eq!(plan.records[1].after, Some(2));
}

#[test]
fn position_tracking_window_stays_on_its_page() {
    let (store, mut view) = loaded::<PositionTrackingWindow>(30, 10);
    view.next_page();
    view.redraw();
    store.records.borrow_mut().insert(0, item(31));
    view.inbox(StoreViewMsg::NewAt(Position(0)));
    store.records.borrow_mut().remove(15);
    view.inbox(StoreViewMsg::Remove(Position(15)));
    view.redraw();
    assert_eq!(view.get_window(), Range::new(10, 20));
    let expected: Vec<RecordId> = store.records.borrow()[10..20].iter().map(|r| r.id).collect();
    assert_eq!(view_ids(&view), expected);
}

#[test]
fn keep_on_top_stays_on_the_first_page() {
    let (store, mut view) = loaded::<KeepOnTop>(10, 5);
    store.records.borrow_mut().insert(0, item(11));
    view.inbox(StoreViewMsg::NewAt(Position(0)));
    view.redraw();
    assert_eq!(view.get_window(), Range::new(0, 5));
    assert_eq!(view_ids(&view), vec![11, 1, 2, 3, 4]);
    store.records.borrow_mut().remove(0);
    view.inbox(StoreViewMsg::Remove(Position(0)));
    view.redraw();
    assert_eq!(view_ids(&view), vec![1, 2, 3, 4, 5]);
}

#[test]
fn value_tracking_window_follows_its_records() {
    let (store, mut view) = loaded::<ValueTrackingWindow>(30, 10);
    view.next_page();
    view.redraw();
    store.records.borrow_mut().insert(3, item(31));
    view.inbox(StoreViewMsg::NewAt(Position(3)));
    view.redraw();
    assert_eq!(view.get_window(), Range::new(11, 21));
    assert_eq!(view_ids(&view), (11..=20).collect::<Vec<RecordId>>());
}

#[test]
fn keep_on_bottom_follows_the_end() {
    let (store, mut view) = loaded::<KeepOnBottom>(10, 5);
    view.last_page();
    view.redraw();
    assert_eq!(view.get_window(), Range::new(5, 10));
    store.records.borrow_mut().push(item(11));
    view.inbox(StoreViewMsg::NewAt(Position(10)));
    view.redraw();
    assert_eq!(view.get_window(), Range::new(6, 11));
    assert_eq!(view_ids(&view), vec![7, 8, 9, 10, 11]);
    store.records.borrow_mut().remove(8);
    view.inbox(StoreViewMsg::Remove(Position(8)));
    view.redraw();
    assert_eq!(view.get_window(), Range::new(5, 10));
    assert_eq!(view_ids(&view), vec![6, 7, 8, 10, 11]);
}

#[test]
fn window_transitions() {
    let state = StoreState { page: Range::new(10, 20), view: 10 };
    for p in [20, 25] {
        assert_eq!(KeepOnTop::insert(&state, &Point::new(p)), WindowTransition::Identity);
        assert_eq!(PositionTrackingWindow::insert(&state, &Point::new(p)), WindowTransition::Identity);
        assert_eq!(ValueTrackingWindow::insert(&state, &Point::new(p)), WindowTransition::Identity);
        assert_eq!(ValueTrackingWindow::remove(&state, &Point::new(p)), WindowTransition::Identity);
        assert_eq!(KeepOnBottom::remove(&state, &Point::new(p)), WindowTransition::Identity);
    }
    assert_eq!(ValueTrackingWindow::insert(&state, &Point::new(3)), WindowTransition::SlideRight(1));
    assert_eq!(ValueTrackingWindow::insert(&state, &Point::new(12)), WindowTransition::InsertLeft { pos: 12, by: 1 });
    assert_eq!(ValueTrackingWindow::insert(&state, &Point::new(15)), WindowTransition::InsertRight { pos: 15, by: 1 });
    assert_eq!(ValueTrackingWindow::remove(&state, &Point::new(14)), WindowTransition::RemoveLeft { pos: 14, by: 1 });
    assert_eq!(KeepOnBottom::insert(&state, &Point::new(3)), WindowTransition::TransitionRight(1));
    assert_eq!(KeepOnBottom::insert(&state, &Point::new(20)), WindowTransition::SlideRight(1));
    assert_eq!(KeepOnBottom::remove(&state, &Point::new(3)), WindowTransition::TransitionLeft(1));
    assert_eq!(PositionTrackingWindow::insert(&state, &Point::new(3)), WindowTransition::InsertRight { pos: 10, by: 1 });
    assert_eq!(PositionTrackingWindow::remove(&state, &Point::new(13)), WindowTransition::RemoveRight { pos: 13, by: 1 });
    assert_eq!(
        PositionTrackingWindow::slide(&state, &Range::new(5, 30)),
        WindowTransition::InsertRight { pos: 10, by: 10 }
    );
    assert_eq!(
        PositionTrackingWindow::slide(&state, &Range::new(5, 13)),
        WindowTransition::InsertRight { pos: 10, by: 3 }
    );
    assert_eq!(
        PositionTrackingWindow::slide(&state, &Range::new(15, 40)),
        WindowTransition::InsertRight { pos: 15, by: 5 }
    );
    assert_eq!(ValueTrackingWindow::slide(&state, &Range::new(5, 8)), WindowTransition::SlideRight(3));
    assert_eq!(
        ValueTrackingWindow::slide(&state, &Range::new(15, 40)),
        WindowTransition::InsertRight { pos: 15, by: 5 }
    );
    assert_eq!(KeepOnTop::slide(&state, &Range::new(0, 5)), WindowTransition::Identity);
}

#[test]
fn container_refuses_repeated_records() {
    let mut dc: DataContainer<Item> = DataContainer::new(4);
    assert!(!dc.can_reload(&vec![item(1), item(1)]));
    assert!(dc.can_reload(&vec![item(1), item(2)]));
    let mut changeset = WindowChangeset::default();
    dc.reload(&mut changeset, vec![item(1), item(2), item(3), item(4), item(5)]);
    assert_eq!(dc.len(), 4);
    assert_eq!(changeset.ids_to_add, HashSet::from([1, 2, 3, 4]));
    assert!(dc.invariants());
    assert!(!dc.can_insert_right(0, &vec![item(2)]));
    assert!(dc.can_insert_right(0, &vec![item(7)]));
    let mut ids = dc.record_ids();
    ids.sort();
    assert_eq!(ids, vec![1, 2, 3, 4]);
    assert_eq!(dc.ordered_record_ids(), &vec![1, 2, 3, 4]);
    dc.update(Item { id: 2, label: String::from("new") });
    assert_eq!(dc.get_record(&2).unwrap().label, "new");
    dc.update(item(9));
    assert_eq!(dc.get_record(&9), None);
    dc.clear();
    assert_eq!(dc.len(), 0);
}

#[test]
fn view_with_repeated_records_is_emptied() {
    let store = Shared { records: Rc::new(RefCell::new(vec![item(1), item(1)])) };
    let mut view: StoreViewImplementation<Shared, KeepOnTop> = StoreViewImplementation::new(store, 5);
    view.redraw();
    assert_eq!(view.current_len(), 0);
}

#[test]
fn value_tracking_window_keeps_records_when_one_before_leaves() {
    let (store, mut view) = loaded::<ValueTrackingWindow>(30, 10);
    view.next_page();
    view.redraw();
    store.records.borrow_mut().remove(5);
    view.inbox(StoreViewMsg::Remove(Position(5)));
    view.redraw();
    assert_eq!(view.get_window(), Range::new(9, 19));
    assert_eq!(view_ids(&view), (11..=20).collect::<Vec<RecordId>>());
    let data = view.get_view_data();
    assert_eq!(data[0].position, Position(9));
    assert_eq!(data[9].position, Position(18));
}

#[test]
fn next_page_stops_at_the_end() {
    let (_store, mut view) = loaded::<PositionTrackingWindow>(25, 10);
    view.next_page();
    view.next_page();
    assert_eq!(view.get_window(), Range::new(20, 30));
    view.redraw();
    view.next_page();
    assert_eq!(view.get_window(), Range::new(20, 30));
    assert_eq!(view.inbox_queue_size(), 0);
    view.prev_page();
    view.prev_page();
    view.redraw();
    view.prev_page();
    assert_eq!(view.get_window(), Range::new(0, 10));
    assert_eq!(view.inbox_queue_size(), 0);
}

#[test]
fn smaller_window_shows_fewer_records() {
    let (_store, mut view) = loaded::<KeepOnTop>(10, 5);
    assert_eq!(view.current_len(), 5);
    view.set_window(Range::new(0, 2));
    assert_eq!(view.window_size(), 2);
    assert!(view.current_len() <= view.window_size());
    let plan = view.redraw().unwrap();
    assert_eq!(view_ids(&view), vec![1, 2]);
    let mut dropped = plan.dropped.clone();
    dropped.sort();
    assert_eq!(dropped, vec![3, 4, 5]);
    view.set_window(Range::new(0, 4));
    view.redraw();
    assert_eq!(view_ids(&view), vec![1, 2, 3, 4]);
    view.set_window(Range::new(0, 8));
    view.redraw();
    assert_eq!(view.window_size(), 8);
    assert_eq!(view_ids(&view), vec![1, 2, 3, 4, 5]);
}

#[test]
fn keep_on_bottom_removes_at_the_removed_position() {
    let state = StoreState { page: Range::new(10, 20), view: 10 };
    assert_eq!(KeepOnBottom::remove(&state, &Point::new(13)), WindowTransition::RemoveLeft { pos: 13, by: 1 });
}

/// Widgets in container order after the work of `plan` on `children`, done as a gtk
/// container would: remove a widget, attach one after another, or first.
fn replay_plan(children: &[RecordId], plan: &relm4_store::RedrawPlan) -> Vec<RecordId> {
    let mut c: Vec<RecordId> = children.to_vec();
    for r in plan.records.iter() {
        if r.create || r.reattach {
            c.retain(|x| *x != r.id);
            match r.after {
                None => c.insert(0, r.id),
                Some(a) => {
                    let k = c.iter().position(|x| *x == a).unwrap();
                    c.insert(k + 1, r.id);
                }
            }
        }
    }
    c.retain(|x| !plan.dropped.contains(x));
    c
}

#[test]
fn records_moved_within_the_view_keep_their_widgets() {
    let (store, mut view) = loaded::<PositionTrackingWindow>(30, 10);
    view.next_page();
    view.redraw();
    let before = view_ids(&view);
    {
        let mut records = store.records.borrow_mut();
        let moved = records.remove(25);
        records.insert(12, moved);
    }
    view.inbox(StoreViewMsg::Move { from: Position(25), to: Position(12) });
    let plan = view.redraw().unwrap();
    assert_eq!(view_ids(&view), vec![11, 12, 26, 13, 14, 15, 16, 17, 18, 19]);
    assert_eq!(plan.dropped, vec![20]);
    for r in plan.records.iter() {
        assert_eq!(r.create, r.id == 26 || (13..=19).contains(&r.id));
        assert!(!plan.dropped.contains(&r.id));
    }
    assert_eq!(replay_plan(&before, &plan), view_ids(&view));
}

#[test]
fn widgets_follow_the_view_order() {
    let (store, mut view) = loaded::<ValueTrackingWindow>(20, 6);
    view.redraw();
    let mut shown = view_ids(&view);
    for (pos, id) in [(0usize, 21u128), (3, 22), (5, 23), (1, 24)] {
        store.records.borrow_mut().insert(pos, item(id));
        view.inbox(StoreViewMsg::NewAt(Position(pos)));
        if let Some(plan) = view.redraw() {
            shown = replay_plan(&shown, &plan);
        }
        assert_eq!(shown, view_ids(&view));
    }
    store.records.borrow_mut().remove(2);
    view.inbox(StoreViewMsg::Remove(Position(2)));
    view.inbox(StoreViewMsg::Reload);
    let plan = view.redraw().unwrap();
    shown = replay_plan(&shown, &plan);
    assert_eq!(shown, view_ids(&view));
}
