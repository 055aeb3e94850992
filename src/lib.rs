//! Election analysis over a captured staking snapshot: stake aggregation, share
//! distribution, delegated-stake and NPoS solutions with their scores, the
//! minimum active stake, and consistency checks of the staking ledger.

pub mod types;
pub mod utils;
pub mod score;
pub mod dpos;
pub mod stake_scan;
pub mod ledger;
pub mod solvers;
pub mod snapshot;
pub mod profile;
pub mod analysis;
pub mod report;
