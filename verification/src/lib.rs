//! Decision core of a solver for five-letter word-guessing puzzles.
//!
//! Given the feedback gathered so far, the library narrows a dictionary down
//! to the words that are still possible (`filters`), works out for every
//! remaining word how the pool would split under each feedback pattern that
//! guessing it could meet (`patterns`, `entropy`), and orders the pool by the
//! scores that the caller derives from those splits (`ranking`, `score`).
//!
//! The library computes with integers only. What a score is made of leaves
//! it as exact counts, and the score itself comes back as an integer code;
//! the arithmetic in between, which is done in floating point, is left to
//! the caller.
//!
//! Every function is verified with Verus against the contract it states,
//! but for three calls into other crates whose contracts are taken on trust:
//! `Itertools::multi_cartesian_product` in `patterns`, rayon's parallel map
//! in `entropy` and `Itertools::sorted_by` in `ranking`. The modules whose
//! names end in `_laws` hold what is proved of the functions beyond their
//! contracts: among them that the filter never rejects the answer
//! (`feedback_laws`), and that the feedback patterns cover the pool and, for
//! a guess without repeated letters, divide it (`partition_laws`).

pub mod entropy;
pub mod entropy_laws;
pub mod feedback;
pub mod feedback_laws;
pub mod filter_laws;
pub mod filters;
pub mod models;
pub mod partition_laws;
pub mod pattern_laws;
pub mod patterns;
pub mod ranking;
pub mod ranking_laws;
pub mod score;
pub mod seq_lemmas;
