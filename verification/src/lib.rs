//! Correlates a stream of WSPR propagation reports against a station's own
//! reports and logs confirmed two-way contacts as ADIF records.

pub mod adif;
pub mod band;
pub mod engine;
pub mod parse;
pub mod power;
pub mod qso;
pub mod spot;
pub mod stats;
pub mod text;
