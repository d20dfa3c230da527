pub mod maths;
pub mod order;
pub mod principal;
pub mod sorted_map;
pub mod text;
pub mod types;

pub mod state;
pub mod vault;
pub mod vault_ops;
pub mod factory;
pub mod routing;
pub mod swap_run;
pub mod creation;
pub mod swap_pool;
pub mod ledger;
