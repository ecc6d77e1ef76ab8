//! Stores of records and store views.
//!
//! A store view shows a window of the records of a store and follows the store as records
//! are added, removed, updated or moved. How the window moves is the choice of a window
//! behavior ([window]). The view keeps its records in a [DataContainer], handles the messages
//! of the store in batches ([StoreViewImplementation::compile_changes]) and tells how the
//! widgets of the records must change ([StoreViewImplementation::redraw]).
//!
//! [view_sync] states when a view shows exactly the records of its window, and
//! [window_laws] how each window behavior moves the window.

mod data_container;
mod data_store;
pub mod math;
pub mod pagination;
pub mod position;
mod record;
mod redraw;
mod record_with_location;
pub mod store_size;
pub mod store_view;
pub mod view_sync;
pub mod window;
mod window_changeset;
pub mod window_laws;

pub use data_container::lemma_insert_right_refreshes_moved;
pub use data_container::lemma_reload_reports;
pub use data_container::DataContainer;
pub use data_store::Backend;
pub use data_store::DataStore;
pub use data_store::OrderedBackend;
pub use data_store::OrderedStore;
pub use data_store::Replies;
pub use data_store::Sorter;
pub use data_store::StoreMsg;
pub use data_store::StoreViewMsg;
pub use math::Range;
pub use pagination::Pagination;
pub use position::Position;
pub use record::Record;
pub use record::RecordId;
pub use record_with_location::RecordWithLocation;
pub use redraw::lemma_plan_orders_widgets;
pub use redraw::lemma_updated_refreshed;
pub use redraw::plan_redraw;
pub use redraw::RecordRedraw;
pub use redraw::RedrawMessages;
pub use redraw::RedrawPlan;
pub use redraw::Widgets;
pub use store_size::StoreSize;
pub use store_view::StoreViewImplementation;
pub use window_changeset::WindowChangeset;
