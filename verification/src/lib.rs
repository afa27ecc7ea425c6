//! Building blocks of a training-data pipeline for a board-game evaluation
//! function: text handling, record deduplication, position extraction, the
//! solver's text protocol and the stage sequencing.
pub mod argument;
pub mod data_loader;
pub mod incubator;
pub mod number;
pub mod record;
pub mod ruversirunner;
pub mod sorting;
pub mod text;
