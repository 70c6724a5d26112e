pub mod apply;
pub mod brush;
pub mod cloud;
pub mod fips;
pub mod infiniband;
pub mod models;
pub mod resolver;
pub mod schnauzer;
pub mod text;
pub mod whippet;
