//! Quasi-abelian multilinear polynomial commitment schemes.

pub mod binding;
pub mod bn256;
pub mod brakedown;
pub mod brakingbase;
pub mod brakingbase_accept;
pub mod brakingbase_checks;
pub mod brakingbase_open;
pub mod brakingbase_replay;
pub mod brakingbase_run;
pub mod brakingbase_soundness;
pub mod brakingbase_verify;
pub mod claims;
pub mod classic_sumcheck;
pub mod code_linearity;
pub mod error;
pub mod field;
pub mod hash;
pub mod interpolation;
pub mod linear;
pub mod merkle;
pub mod message_order;
pub mod mle;
pub mod mersenne_61_mont;
pub mod parity;
pub mod play_field;
pub mod pointwise;
pub mod products;
pub mod products_soundness;
pub mod qa_code;
pub mod qabase;
pub mod qabase_accept;
pub mod qabase_columns;
pub mod qabase_laws;
pub mod qabase_open;
pub mod qabase_relations;
pub mod qabase_replay;
pub mod qabase_soundness;
pub mod qapcs;
pub mod qapcs_replay;
pub mod qapcs_shape;
pub mod qapcs_soundness;
pub mod quasar;
pub mod quasar_columns;
pub mod quasar_gkr;
pub mod quasar_laws;
pub mod quasar_open;
pub mod quasar_replay;
pub mod quasar_soundness;
pub mod sampling;
pub mod spark;
pub mod spark_memory;
pub mod spark_replay;
pub mod spark_soundness;
pub mod sumcheck;
pub mod sumcheck_replay;
pub mod sumcheck_soundness;
pub mod transcript;
pub mod transcript_binding;
pub mod tree_order;

pub use bn256::Fr;
pub use field::{PrimeField, Residue};
pub use mersenne_61_mont::Mersenne61Mont;
pub use play_field::PlayField;
