//! Accounting engine of a collateralised stablecoin (QD) backed by a volatile
//! native asset (NEAR): pools, pledges, liquidation and redemption rules.
#![allow(non_snake_case)]

pub mod math;
pub mod error;
pub mod pool;
pub mod pledge;
pub mod index;
pub mod token;
pub mod crank;
pub mod books;
pub mod contract;
pub mod swap;
pub mod liquidate;
pub mod ops;
pub mod settle;
