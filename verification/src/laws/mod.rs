//! Laws that hold across operations.

pub mod answers;
pub mod blocks;
pub mod bridge;
pub mod conduct;
pub mod crossings;
pub mod duties;
pub mod epochs;
pub mod fastpath;
pub mod flows;
pub mod identifiers;
pub mod inclusion;
pub mod index;
pub mod layouts;
pub mod lifecycles;
pub mod listing;
pub mod money;
pub mod payments;
pub mod queries;
pub mod readings;
pub mod registries;
pub mod rings;
pub mod rollups;
pub mod roots;
pub mod sequences;
pub mod stake;
pub mod unbonding;
pub mod views;
pub mod writers;
