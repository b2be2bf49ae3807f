pub mod text;
pub mod pacman;
pub mod order;
pub mod stats;
pub mod cleanup;
pub mod deps;
pub mod scan;
pub mod analyzer;
pub mod storage;
pub mod report;
pub mod laws;
pub mod tables;
