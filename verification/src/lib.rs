//! Dense matrices over exact fixed-denominator values, with a verified
//! transpose-then-dot-product multiplication.
//!
//! A [`Mat`] stores integer numerators in one flat row-major buffer together
//! with a common denominator `scale`: the value of the entry at row `i`,
//! column `j` is `num(i, j) / scale`. Working over exact integers keeps every
//! contract precise: generation fills a square matrix from a closed-form
//! formula, and multiplication returns the exact dot products of rows and
//! columns, with the denominators multiplied.

mod cli;
mod generator;
mod matrix;
mod mul;

pub use cli::effective_n;
pub use generator::benchmark_product;
pub use generator::gen_dot;
pub use generator::gen_num;
pub use generator::is_generated;
pub use generator::lemma_gen_num_bound;
pub use generator::matgen;
pub use matrix::Mat;
pub use mul::dot_prefix;
pub use mul::entries_bounded;
pub use mul::identity;
pub use mul::is_identity;
pub use mul::is_zero;
pub use mul::lemma_entries_bounded_mul_fits;
pub use mul::lemma_mul_identity;
pub use mul::lemma_mul_zero;
pub use mul::mat_mul_entry;
pub use mul::matmul;
pub use mul::matmul_checked;
pub use mul::mul_fits;
pub use mul::scale_fits;
pub use mul::transpose;
