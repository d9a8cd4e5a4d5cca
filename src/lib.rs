//! Dense multiplication of rectangular `i32` matrices with overflow-checked
//! accumulation and a static row partition for parallel workers.
pub mod model;
pub mod matrix;
pub mod partition;
pub mod analyzer;
