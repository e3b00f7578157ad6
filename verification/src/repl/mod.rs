//! What the read-eval-print loop decides; the loop itself, which reads
//! and prints, is not part of the library.

pub mod framework;
