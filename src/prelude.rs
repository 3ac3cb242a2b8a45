pub use crate::ch02::{bubble_sort, insertion_sort, merge_sort};
pub use crate::ch04::{matrix_multiply, matrix_multiply_recursive, matrix_multiply_strassen};
pub use crate::ch05::{
    hire_assistant, online_maximum_aux, random_sample, randomized_hire_assistant, randomly_permute,
};
