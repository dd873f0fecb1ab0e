//! Rows of the tables the engine works on. Money is held in cents.

use vstd::prelude::*;

verus! {

/// A row of `products`. `price` is in cents; `stock` is the 64-bit integer
/// that the table holds (an order reads it as an `i32`).
pub struct Product {
    pub id: i32,
    pub name: String,
    pub price: i32,
    pub stock: i64,
}

/// A row of `customers`.
pub struct Customer {
    pub id: i32,
    pub wa_number: String,
    pub name: Option<String>,
}

/// A row of `orders`; `total` is in cents.
pub struct Order {
    pub id: i64,
    pub customer_id: i32,
    pub total: i128,
    pub status: String,
    pub direccion: String,
}

/// A row of `order_items`; `subtotal` is in cents.
#[derive(Clone, Copy, Debug, PartialEq, Eq, Structural)]
pub struct OrderItem {
    pub id: i64,
    pub order_id: i64,
    pub product_id: i32,
    pub quantity: i32,
    pub subtotal: i64,
}

} // verus!
