//! Order engine: the rules by which a shopping cart is checked against the
//! inventory and turned into an order, over an in-memory model of the
//! database tables.

pub mod bot;
pub mod db;
pub mod inventario;
pub mod leyes;
pub mod logic;
pub mod models;
pub mod schema;
