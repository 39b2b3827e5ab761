//! The state behind a keyed list of counters: each row holds a stable id and
//! a count, rows can be added at the end, counted up, and removed by id.

mod list;

pub use list::{
    counted_up, has_id, ids_increasing, initial_rows, lemma_remove_undoes_add, other_than,
    without_id, CounterList,
};
