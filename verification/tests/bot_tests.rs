use sistema_pedidos_rust::bot::responder_mensaje;
use sistema_pedidos_rust::models::Product;
use sistema_pedidos_rust::schema::Database;
use tokio::sync::broadcast;

const MENU: &str = "¡Hola! Bienvenido.\n\n1. Pizza Especial - $15.50\n2. Hamburguesa Max - $12.00\n3. Café Negro - $3.50\n\nResponde con el NÚMERO del producto para añadirlo.";

fn base() -> Database {
    let mut db = Database::new();
    db.products.push(Product { id: 1, name: "Pizza Especial".to_string(), price: 1550, stock: 1 });
    db
}

#[test]
fn saludo_muestra_el_menu() {
    let mut db = base();
    let (tx, _) = broadcast::channel(16);
    assert_eq!(responder_mensaje("w", "hola", &mut db, &tx), MENU);
    assert_eq!(responder_mensaje("w", "  HoLa \n", &mut db, &tx), MENU);
    assert_eq!(responder_mensaje("w", "MENU", &mut db, &tx), MENU);
    assert!(db.orders.is_empty());
}

#[test]
fn numero_registra_pedido_de_una_unidad() {
    let mut db = base();
    let (tx, _) = broadcast::channel(16);
    let r = responder_mensaje("w", " 1 ", &mut db, &tx);
    assert_eq!(r, "✅ ¡Pedido registrado! Revisa el Dashboard.");
    assert_eq!(db.products[0].stock, 0);
    assert_eq!(db.orders.len(), 1);
    assert_eq!(db.orders[0].customer_id, 1);
    assert_eq!(db.orders[0].direccion, "Dirección por definir");
    assert_eq!(db.orders[0].total, 1550);
}

#[test]
fn sin_stock_o_sin_producto_responde_error() {
    let mut db = base();
    let (tx, _) = broadcast::channel(16);
    assert!(responder_mensaje("w", "1", &mut db, &tx).starts_with("✅"));
    assert_eq!(responder_mensaje("w", "1", &mut db, &tx), "❌ Error de stock o base de datos.");
    assert_eq!(responder_mensaje("w", "3", &mut db, &tx), "❌ Error de stock o base de datos.");
    assert_eq!(db.orders.len(), 1);
}

#[test]
fn mensaje_desconocido() {
    let mut db = base();
    let (tx, _) = broadcast::channel(16);
    let esperado = "No te entendí. Escribe 'MENU' para ver los productos disponibles.";
    assert_eq!(responder_mensaje("w", "4", &mut db, &tx), esperado);
    assert_eq!(responder_mensaje("w", "hola que tal", &mut db, &tx), esperado);
    assert_eq!(responder_mensaje("w", "", &mut db, &tx), esperado);
    assert!(db.orders.is_empty());
    assert_eq!(db.products[0].stock, 1);
}
