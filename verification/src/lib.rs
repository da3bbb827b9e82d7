pub mod bytes;
pub mod chip;
pub mod coherence;
pub mod color;
pub mod device;
pub mod driver;
pub mod hc595_cols;
pub mod laws;
pub mod plan;
pub mod protocol;
pub mod registers;
pub mod sequence;
pub mod shiftreg_matrix;
pub mod startup;
