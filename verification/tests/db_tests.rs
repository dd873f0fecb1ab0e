use sistema_pedidos_rust::db::procesar_pedido_completo;
use sistema_pedidos_rust::inventario::OrderError;
use sistema_pedidos_rust::models::{Customer, Product};
use sistema_pedidos_rust::schema::Database;
use tokio::sync::broadcast;

// A clean database: one pizza at 10.00 with 5 in stock, and one customer.
fn setup_test_db() -> Database {
    let mut conn = Database::new();
    conn.products.push(Product { id: 1, name: "Pizza".to_string(), price: 1000, stock: 5 });
    conn.customers.push(Customer {
        id: 1,
        wa_number: "123".to_string(),
        name: Some("Test User".to_string()),
    });
    conn
}

fn stock_de(conn: &Database, id: i32) -> i64 {
    conn.products.iter().find(|p| p.id == id).unwrap().stock
}

fn total_de(conn: &Database, id: i64) -> f64 {
    conn.orders.iter().find(|o| o.id == id).unwrap().total as f64 / 100.0
}

#[test]
fn test_pedido_exitoso_y_descuento_stock() {
    let mut conn = setup_test_db();
    let (tx, _) = broadcast::channel(16);

    let carrito = vec![(1, 2)]; // 2 pizzas at 10.00

    let resultado = procesar_pedido_completo(&mut conn, 1, carrito, &tx, "User", "123", "Calle 1");

    assert!(resultado.is_ok());

    // The stock went from 5 to 3
    let stock = stock_de(&conn, 1);
    assert_eq!(stock, 3);

    // The total is 20.00
    let total = total_de(&conn, 1);
    assert_eq!(total, 20.0);
}

#[test]
fn test_error_por_stock_insuficiente() {
    let mut conn = setup_test_db();
    let (tx, _) = broadcast::channel(16);

    let carrito = vec![(1, 10)]; // 10 asked, only 5 in stock

    let resultado = procesar_pedido_completo(&mut conn, 1, carrito, &tx, "User", "123", "Calle 1");

    // It must fail
    assert!(resultado.is_err());

    // The stock is left as it was
    let stock = stock_de(&conn, 1);
    assert_eq!(stock, 5);
}

#[test]
fn pedido_registra_fila_e_items() {
    let mut conn = setup_test_db();
    let (tx, _) = broadcast::channel(16);
    let r = procesar_pedido_completo(&mut conn, 7, vec![(1, 2)], &tx, "User", "123", "Calle 1");
    assert_eq!(r, Ok(()));
    assert_eq!(conn.orders.len(), 1);
    let o = &conn.orders[0];
    assert_eq!(o.id, 1);
    assert_eq!(o.customer_id, 7);
    assert_eq!(o.total, 2000);
    assert_eq!(o.status, "PENDIENTE");
    assert_eq!(o.direccion, "Calle 1");
    assert_eq!(conn.order_items.len(), 1);
    let it = conn.order_items[0];
    assert_eq!((it.id, it.order_id, it.product_id, it.quantity, it.subtotal), (1, 1, 1, 2, 2000));
    assert_eq!(conn.last_order_id, 1);
    assert_eq!(conn.last_item_id, 1);
    assert_eq!(conn.customers.len(), 1);
}

#[test]
fn pedidos_sucesivos_reciben_ids_nuevos() {
    let mut conn = setup_test_db();
    conn.products.push(Product { id: 2, name: "Bebida".to_string(), price: 250, stock: 10 });
    let (tx, _) = broadcast::channel(16);
    assert!(procesar_pedido_completo(&mut conn, 1, vec![(1, 1), (2, 2)], &tx, "a", "b", "c").is_ok());
    assert!(procesar_pedido_completo(&mut conn, 1, vec![(2, 1)], &tx, "a", "b", "c").is_ok());
    let ids: Vec<i64> = conn.orders.iter().map(|o| o.id).collect();
    assert_eq!(ids, vec![1, 2]);
    let items: Vec<(i64, i64)> = conn.order_items.iter().map(|i| (i.id, i.order_id)).collect();
    assert_eq!(items, vec![(1, 1), (2, 1), (3, 2)]);
    assert_eq!(conn.orders[0].total, 1000 + 500);
    assert_eq!(conn.orders[1].total, 250);
    assert_eq!(stock_de(&conn, 2), 7);
}

#[test]
fn producto_inexistente_se_rechaza_sin_cambios() {
    let mut conn = setup_test_db();
    let (tx, _) = broadcast::channel(16);
    let r = procesar_pedido_completo(&mut conn, 1, vec![(1, 1), (9, 1)], &tx, "a", "b", "c");
    assert_eq!(r, Err(OrderError::ProductNotFound(9)));
    assert_eq!(stock_de(&conn, 1), 5);
    assert!(conn.orders.is_empty());
    assert!(conn.order_items.is_empty());
    assert_eq!(conn.last_order_id, 0);
    assert_eq!(conn.last_item_id, 0);
}

#[test]
fn producto_repetido_ve_el_stock_ya_descontado() {
    let mut conn = setup_test_db();
    let (tx, _) = broadcast::channel(16);
    let r = procesar_pedido_completo(&mut conn, 1, vec![(1, 3), (1, 3)], &tx, "a", "b", "c");
    assert_eq!(r, Err(OrderError::InsufficientStock(1, 2, 3)));
    assert_eq!(stock_de(&conn, 1), 5);
    let r = procesar_pedido_completo(&mut conn, 1, vec![(1, 3), (1, 2)], &tx, "a", "b", "c");
    assert!(r.is_ok());
    assert_eq!(stock_de(&conn, 1), 0);
}

#[test]
fn stock_fuera_de_rango() {
    let mut conn = setup_test_db();
    conn.products[0].stock = i32::MAX as i64 + 1;
    let (tx, _) = broadcast::channel(16);
    let r = procesar_pedido_completo(&mut conn, 1, vec![(1, 1)], &tx, "a", "b", "c");
    assert_eq!(r, Err(OrderError::StockOutOfRange(1, i32::MAX as i64 + 1)));
}

#[test]
fn cantidad_negativa_devuelve_stock() {
    let mut conn = setup_test_db();
    let (tx, _) = broadcast::channel(16);
    let r = procesar_pedido_completo(&mut conn, 1, vec![(1, -2)], &tx, "a", "b", "c");
    assert!(r.is_ok());
    assert_eq!(stock_de(&conn, 1), 7);
    assert_eq!(conn.orders[0].total, -2000);
}

#[test]
fn carrito_vacio_registra_pedido_en_cero() {
    let mut conn = setup_test_db();
    let (tx, _) = broadcast::channel(16);
    assert!(procesar_pedido_completo(&mut conn, 1, vec![], &tx, "a", "b", "c").is_ok());
    assert_eq!(conn.orders.len(), 1);
    assert_eq!(conn.orders[0].total, 0);
    assert!(conn.order_items.is_empty());
}

#[test]
fn ids_agotados() {
    let mut conn = setup_test_db();
    let (tx, _) = broadcast::channel(16);
    conn.last_order_id = i64::MAX;
    let r = procesar_pedido_completo(&mut conn, 1, vec![(1, 1)], &tx, "a", "b", "c");
    assert_eq!(r, Err(OrderError::RowIdExhausted));
    assert_eq!(stock_de(&conn, 1), 5);

    conn.last_order_id = 0;
    conn.last_item_id = i64::MAX - 1;
    let r = procesar_pedido_completo(&mut conn, 1, vec![(1, 1), (1, 1)], &tx, "a", "b", "c");
    assert_eq!(r, Err(OrderError::RowIdExhausted));
    assert_eq!(stock_de(&conn, 1), 5);
    assert!(conn.orders.is_empty());

    let r = procesar_pedido_completo(&mut conn, 1, vec![(1, 1)], &tx, "a", "b", "c");
    assert!(r.is_ok());
    assert_eq!(conn.order_items[0].id, i64::MAX);
}
