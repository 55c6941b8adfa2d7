//! An arbitrary-precision RPN calculator core: exact decimal values, a stack
//! with transactional operations and linear undo/redo history, and a
//! fixed-width number layout.
pub mod decimal;
pub mod undo;
pub mod stack;
pub mod laws;
pub mod format;
pub mod state;
pub mod input;
pub mod number_laws;
