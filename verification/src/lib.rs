//! Verified core logic of the Tanssi pallets: collator assignment, host configuration,
//! data preservers, contract deployment filtering, authority bookkeeping and loan-pool arithmetic.

pub mod assignment;
pub mod assignment_laws;
pub mod author_noting;
pub mod authority;
pub mod community_loan_pool;
pub mod community_projects;
pub mod collator_assignment;
pub mod configuration;
pub mod contract_deploy_filter;
pub mod data_preservers;
pub mod ethereum_token_transfers;
pub mod origin;
pub mod maps;
pub mod perthings;
pub mod profile_migration;
pub mod rng;
