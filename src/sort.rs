pub use crate::ch02::{bubble_sort, insertion_sort, merge_sort};
