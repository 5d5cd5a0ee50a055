//! Algebraic structures over plain truth values and over symbolic elements:
//! the hierarchy of structures with the two-element algebra, vectors of
//! elements as two's-complement numbers, and binary relations as square
//! tensors.

pub mod alg;
pub mod bits;
pub mod boolalg;
pub mod boolvec;
pub mod equivalence;
pub mod lexer;
pub mod relation;
pub mod shape;
pub mod tensor;
