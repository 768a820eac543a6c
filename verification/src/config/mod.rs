
pub mod alias;
pub mod hosts;
pub mod load;

pub mod model;
pub mod resolve;
pub mod round_trip;
pub mod ssh_config;


