//! Textbook algorithms: sorting, matrix products (among them Strassen's, over
//! borrowed rectangular views of a matrix) and randomized selection, each with
//! its contract proved.

pub mod ch02;
pub mod ch04;
pub mod ch05;
pub mod prelude;
pub mod sort;
pub mod utils;
