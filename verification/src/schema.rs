//! The tables of the order database: products, customers, orders and their
//! items, with the counters from which new order and item ids are taken.

use vstd::prelude::*;
use crate::models::{Customer, Order, OrderItem, Product};

verus! {

/// The order database. `last_order_id` and `last_item_id` are the largest
/// ids handed out so far; the next row takes the following one.
pub struct Database {
    pub products: Vec<Product>,
    pub customers: Vec<Customer>,
    pub orders: Vec<Order>,
    pub order_items: Vec<OrderItem>,
    pub last_order_id: i64,
    pub last_item_id: i64,
}

impl Database {
    /// A database with its tables created and empty.
    pub fn new() -> (db: Database)
        ensures
            db.products@.len() == 0,
            db.customers@.len() == 0,
            db.orders@.len() == 0,
            db.order_items@.len() == 0,
            db.last_order_id == 0,
            db.last_item_id == 0,
    {
        Database {
            products: Vec::new(),
            customers: Vec::new(),
            orders: Vec::new(),
            order_items: Vec::new(),
            last_order_id: 0,
            last_item_id: 0,
        }
    }
}

} // verus!
