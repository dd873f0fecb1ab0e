use sistema_pedidos_rust::inventario::{
    actualizar_stocks, buscar_producto, planificar, registrar_lineas, Linea, OrderError,
};
use sistema_pedidos_rust::models::{OrderItem, Product};

fn productos() -> Vec<Product> {
    vec![
        Product { id: 1, name: "Pizza Especial".to_string(), price: 1500, stock: 100 },
        Product { id: 2, name: "Bebida 500ml".to_string(), price: 500, stock: 200 },
        Product { id: 5, name: "Postre".to_string(), price: 350, stock: 3 },
    ]
}

#[test]
fn buscar_producto_da_la_posicion() {
    let ps = productos();
    assert_eq!(buscar_producto(&ps, 1), Some(0));
    assert_eq!(buscar_producto(&ps, 5), Some(2));
    assert_eq!(buscar_producto(&ps, 3), None);
}

#[test]
fn plan_descuenta_lo_pedido_de_cada_producto() {
    let ps = productos();
    let plan = planificar(&ps, &vec![(1, 2), (5, 1), (1, 3), (2, 4)], 0).unwrap();
    assert_eq!(plan.stocks, vec![95, 196, 2]);
    assert_eq!(
        plan.lineas,
        vec![
            Linea { product_id: 1, quantity: 2, subtotal: 3000 },
            Linea { product_id: 5, quantity: 1, subtotal: 350 },
            Linea { product_id: 1, quantity: 3, subtotal: 4500 },
            Linea { product_id: 2, quantity: 4, subtotal: 2000 },
        ]
    );
    assert_eq!(plan.total, 9850);
}

#[test]
fn plan_rechaza_en_el_primer_par_que_falla() {
    let ps = productos();
    assert_eq!(
        planificar(&ps, &vec![(5, 2), (7, 1), (5, 2)], 0).err(),
        Some(OrderError::ProductNotFound(7))
    );
    assert_eq!(
        planificar(&ps, &vec![(5, 2), (5, 2), (7, 1)], 0).err(),
        Some(OrderError::InsufficientStock(5, 1, 2))
    );
}

#[test]
fn stock_tocado_nunca_queda_negativo() {
    let mut ps = productos();
    ps[2].stock = -4;
    assert_eq!(
        planificar(&ps, &vec![(5, 0)], 0).err(),
        Some(OrderError::InsufficientStock(5, -4, 0))
    );
    let plan = planificar(&ps, &vec![(5, -4)], 0).unwrap();
    assert_eq!(plan.stocks[2], 0);
}

#[test]
fn dos_carritos_seguidos_equivalen_a_uno() {
    let ps = productos();
    let a = vec![(1, 2), (5, 1)];
    let b = vec![(5, 2), (2, 7)];
    let mut ab = a.clone();
    ab.extend(b.iter().cloned());

    let junto = planificar(&ps, &ab, 10).unwrap();
    let primero = planificar(&ps, &a, 10).unwrap();
    let mut ps2 = productos();
    actualizar_stocks(&mut ps2, &primero.stocks);
    let segundo = planificar(&ps2, &b, 10 + a.len() as i64).unwrap();

    assert_eq!(junto.stocks, segundo.stocks);
    let mut lineas = primero.lineas.clone();
    lineas.extend(segundo.lineas.iter().cloned());
    assert_eq!(junto.lineas, lineas);
    assert_eq!(junto.total, primero.total + segundo.total);
}

#[test]
fn ids_de_lineas_agotados() {
    let ps = productos();
    assert_eq!(
        planificar(&ps, &vec![(1, 1), (1, 1)], i64::MAX - 1).err(),
        Some(OrderError::RowIdExhausted)
    );
    assert!(planificar(&ps, &vec![(1, 1)], i64::MAX - 1).is_ok());
}

#[test]
fn stock_que_no_cabe_en_i32() {
    let mut ps = productos();
    ps[0].stock = i32::MIN as i64 - 1;
    assert_eq!(
        planificar(&ps, &vec![(1, 1)], 0).err(),
        Some(OrderError::StockOutOfRange(1, i32::MIN as i64 - 1))
    );
}

#[test]
fn subtotal_con_precios_extremos() {
    let ps = vec![Product { id: 1, name: "x".to_string(), price: i32::MIN, stock: i32::MAX as i64 }];
    let plan = planificar(&ps, &vec![(1, i32::MAX), (1, i32::MIN)], 0).unwrap();
    assert_eq!(plan.lineas[0].subtotal, i32::MIN as i64 * i32::MAX as i64);
    assert_eq!(plan.lineas[1].subtotal, i32::MIN as i64 * i32::MIN as i64);
    assert_eq!(plan.total, plan.lineas[0].subtotal as i128 + plan.lineas[1].subtotal as i128);
}

#[test]
fn actualizar_y_registrar() {
    let mut ps = productos();
    actualizar_stocks(&mut ps, &vec![1, 2, 3]);
    let st: Vec<i64> = ps.iter().map(|p| p.stock).collect();
    assert_eq!(st, vec![1, 2, 3]);
    assert_eq!(ps[1].name, "Bebida 500ml");

    let mut items: Vec<OrderItem> = Vec::new();
    let mut last = 41;
    let lineas = vec![
        Linea { product_id: 1, quantity: 2, subtotal: 3000 },
        Linea { product_id: 2, quantity: 1, subtotal: 500 },
    ];
    registrar_lineas(&mut items, &mut last, 9, &lineas);
    assert_eq!(last, 43);
    assert_eq!(
        items,
        vec![
            OrderItem { id: 42, order_id: 9, product_id: 1, quantity: 2, subtotal: 3000 },
            OrderItem { id: 43, order_id: 9, product_id: 2, quantity: 1, subtotal: 500 },
        ]
    );
}
