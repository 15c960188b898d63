pub mod gen;
pub mod journal;
pub mod outcome;
pub mod random;
pub mod range;
pub mod seed;
pub mod shrink;
pub mod tree;
pub mod property;
pub mod lazy;
pub mod pretty;
