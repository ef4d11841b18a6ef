//! Analysis of infrastructure project records: row parsing, loading, the
//! regional, contractor and annual reports, and their summary digest.
//!
//! Amounts are held in centavos. Derived figures (averages, shares, scores,
//! indices) are fixed-point numbers in hundredths, rounded down; `export`
//! writes them as decimals with two fractional digits.
pub mod text;
pub mod record;
pub mod loader;
pub mod order;
pub mod stats;
pub mod grouping;
pub mod regional;
pub mod contractor;
pub mod annual;
pub mod summary;
pub mod export;
pub mod laws;
