//! Reads the Python interpreter of another process: its thread stacks, thread
//! names and variables, through copies of that process's memory.
pub mod error;
pub mod text;
pub mod bytes;
pub mod objects;
pub mod target;
pub mod strings;
pub mod python_data_access;
pub mod version;
pub mod config;
pub mod stack_trace;
pub mod python_threading;
pub mod variables;
pub mod laws_reading;
pub mod laws_data;
pub mod laws_stack;
pub mod laws_threads;
pub mod laws_values;
pub mod laws_results;
