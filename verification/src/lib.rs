//! A local disk-hygiene engine: an index of files under watched roots, a
//! candidate selector, reversible bulk operations and a rolling gauge.

pub mod clock;
pub mod commands;
pub mod db;
pub mod gauge;
pub mod licensing;
pub mod models;
pub mod ops;
pub mod order;
pub mod paths;
pub mod scanner;
pub mod selector;
pub mod seqs;
pub mod text;
