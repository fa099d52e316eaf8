//! What the parts of the library promise, said of what goes in and what comes out.

pub mod arithmetic;
pub mod collections;
pub mod comparison;
pub mod construction;
pub mod faults;
pub mod filters;
pub mod forms;
pub mod library;
pub mod machines;
pub mod names;
pub mod numbers;
pub mod reading;
pub mod registers;
pub mod rules;
pub mod stack;
