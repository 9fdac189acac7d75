pub mod modes;
pub mod policy;
pub mod steps;
pub mod search;
pub mod proximity;
pub mod collision;
