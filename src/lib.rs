//! Generalized k-ary folding arguments and an aggregated R1CS proof system.
#![allow(non_snake_case)]
#![allow(non_camel_case_types)]

pub mod batched_ecp;
pub mod bytes;
pub mod errors;
pub mod fold;
pub mod generators;
pub mod inner_product_proof;
pub mod k_bullet;
pub mod rounds;
pub mod scalar;
pub mod point;
pub mod r1cs;
pub mod transcript;
pub mod util;
