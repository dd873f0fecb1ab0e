use sistema_pedidos_rust::inventario::OrderError;
use sistema_pedidos_rust::logic::{procesar_pedido_completo, setup_db, Database};

fn base_sembrada() -> Database {
    let mut db = Database::new();
    assert!(setup_db(&mut db).is_ok());
    db
}

#[test]
fn setup_db_siembra_los_dos_productos() {
    let db = base_sembrada();
    let filas: Vec<(i32, &str, i32, i64)> =
        db.products.iter().map(|p| (p.id, p.name.as_str(), p.price, p.stock)).collect();
    assert_eq!(filas, vec![(1, "Pizza Especial", 1500, 100), (2, "Bebida 500ml", 500, 200)]);
}

#[test]
fn setup_db_es_idempotente() {
    let mut db = base_sembrada();
    db.products[0].stock = 42;
    assert!(setup_db(&mut db).is_ok());
    assert_eq!(db.products.len(), 2);
    assert_eq!(db.products[0].stock, 42);
}

#[test]
fn setup_db_respeta_ids_ocupados() {
    let mut db = Database::new();
    db.products.push(sistema_pedidos_rust::models::Product {
        id: 2,
        name: "Otra".to_string(),
        price: 1,
        stock: 1,
    });
    assert!(setup_db(&mut db).is_ok());
    let ids: Vec<i32> = db.products.iter().map(|p| p.id).collect();
    assert_eq!(ids, vec![2, 1]);
    assert_eq!(db.products[0].name, "Otra");
}

#[test]
fn pedido_simulado_del_gateway() {
    let mut db = base_sembrada();
    let u = procesar_pedido_completo(&mut db, "Santiago Urdaneta", "Calle 123", vec![(1, 1)]).unwrap();
    assert_eq!(u.id, 1);
    assert_eq!(u.customer_name, "Santiago Urdaneta");
    assert_eq!(u.total, 1500);
    assert_eq!(u.status, "PROCESADO");
    assert_eq!(db.products[0].stock, 99);
    let o = &db.orders[0];
    assert_eq!((o.id, o.customer_name.as_str(), o.total, o.status.as_str(), o.direccion.as_str()),
        (1, "Santiago Urdaneta", 1500, "PENDIENTE", "Calle 123"));
    assert_eq!(db.order_items.len(), 1);
    assert_eq!(db.order_items[0].order_id, 1);
}

#[test]
fn pedido_rechazado_no_cambia_nada() {
    let mut db = base_sembrada();
    let r = procesar_pedido_completo(&mut db, "x", "y", vec![(2, 150), (1, 101)]);
    assert_eq!(r.err(), Some(OrderError::InsufficientStock(1, 100, 101)));
    assert_eq!(db.products[0].stock, 100);
    assert_eq!(db.products[1].stock, 200);
    assert!(db.orders.is_empty());
    assert!(db.order_items.is_empty());
    assert_eq!(db.last_order_id, 0);
}

#[test]
fn total_suma_los_subtotales() {
    let mut db = base_sembrada();
    let u = procesar_pedido_completo(&mut db, "x", "y", vec![(1, 2), (2, 3)]).unwrap();
    assert_eq!(u.total, 2 * 1500 + 3 * 500);
    assert_eq!(u.total as f64 / 100.0, 45.0);
}
