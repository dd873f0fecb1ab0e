//! The order database as the web gateway keeps it: orders are recorded
//! under the customer's name, and every accepted order is announced as an
//! `OrderUpdate`.

use vstd::prelude::*;
use crate::inventario::{
    actualizar_stocks, aplicar, buscar_producto, con_stocks, filas_items, indice, lemma_forma,
    planificar, registrar_lineas, suma, Linea, OrderError,
};
use crate::models::{OrderItem, Product};

verus! {

/// The announcement of an accepted order; `total` is in cents.
pub struct OrderUpdate {
    pub id: i64,
    pub customer_name: String,
    pub total: i128,
    pub status: String,
}

/// A row of this database's `orders` table; `total` is in cents.
pub struct OrderRecord {
    pub id: i64,
    pub customer_name: String,
    pub total: i128,
    pub status: String,
    pub direccion: String,
}

/// The gateway's order database. `last_order_id` and `last_item_id` are the
/// largest ids handed out so far.
pub struct Database {
    pub products: Vec<Product>,
    pub orders: Vec<OrderRecord>,
    pub order_items: Vec<OrderItem>,
    pub last_order_id: i64,
    pub last_item_id: i64,
}

impl Database {
    /// A database with its tables created and empty.
    pub fn new() -> (db: Database)
        ensures
            db.products@.len() == 0,
            db.orders@.len() == 0,
            db.order_items@.len() == 0,
            db.last_order_id == 0,
            db.last_item_id == 0,
    {
        Database {
            products: Vec::new(),
            orders: Vec::new(),
            order_items: Vec::new(),
            last_order_id: 0,
            last_item_id: 0,
        }
    }
}

/// `p` is the product with these columns.
pub open spec fn es_producto(p: Product, id: i32, name: Seq<char>, price: i32, stock: i64) -> bool {
    &&& p.id == id
    &&& p.name@ == name
    &&& p.price == price
    &&& p.stock == stock
}

/// `despues` is `antes` after inserting the product unless its id is taken.
pub open spec fn sembrado(
    antes: Seq<Product>,
    despues: Seq<Product>,
    id: i32,
    name: Seq<char>,
    price: i32,
    stock: i64,
) -> bool {
    if indice(antes, id) >= 0 {
        despues == antes
    } else {
        &&& despues.len() == antes.len() + 1
        &&& despues.drop_last() == antes
        &&& es_producto(despues.last(), id, name, price, stock)
    }
}

/// `despues` is `antes` with the two seed products inserted where their ids
/// are free: pizza (id 1, 15.00, 100 in stock), then drink (id 2, 5.00, 200).
pub open spec fn semillas(antes: Seq<Product>, despues: Seq<Product>) -> bool {
    let n = if indice(antes, 1) >= 0 {
        antes.len()
    } else {
        antes.len() + 1
    };
    &&& n <= despues.len()
    &&& sembrado(antes, despues.take(n as int), 1, "Pizza Especial"@, 1500, 100)
    &&& sembrado(despues.take(n as int), despues, 2, "Bebida 500ml"@, 500, 200)
}

fn sembrar(productos: &mut Vec<Product>, id: i32, name: &str, price: i32, stock: i64)
    ensures
        sembrado(old(productos)@, final(productos)@, id, name@, price, stock),
{
    if buscar_producto(productos, id).is_none() {
        let ghost antes = productos@;
        productos.push(Product { id: id, name: String::from_str(name), price: price, stock: stock });
        assert(productos@.drop_last() =~= antes);
    }
}

/// Prepares the database: the tables exist already in this model; the seed
/// products are inserted unless their ids are taken. Nothing else changes.
pub fn setup_db(conn: &mut Database) -> (r: Result<(), OrderError>)
    ensures
        r is Ok,
        semillas(old(conn).products@, final(conn).products@),
        final(conn).orders@ == old(conn).orders@,
        final(conn).order_items@ == old(conn).order_items@,
        final(conn).last_order_id == old(conn).last_order_id,
        final(conn).last_item_id == old(conn).last_item_id,
{
    let ghost p0 = conn.products@;
    sembrar(&mut conn.products, 1, "Pizza Especial", 1500, 100);
    let ghost p1 = conn.products@;
    sembrar(&mut conn.products, 2, "Bebida 500ml", 500, 200);
    assert(conn.products@.take(p1.len() as int) =~= p1);
    Ok(())
}

/// What an order of `carrito` comes to on `db`: the new stocks and the
/// lines, or the refusal. The order's own id is taken first.
pub open spec fn resultado(db: Database, carrito: Seq<(i32, i32)>) -> Result<
    (Seq<i64>, Seq<Linea>),
    OrderError,
> {
    if db.last_order_id == i64::MAX {
        Err(OrderError::RowIdExhausted)
    } else {
        aplicar(db.products@, carrito, db.last_item_id as int)
    }
}

/// `despues` is `antes` with the accepted order (stocks `st`, lines `ls`)
/// registered under the customer's name: stocks replaced, one order row
/// (status `PENDIENTE`) and one item row per line appended, with fresh ids.
pub open spec fn pedido_registrado(
    antes: Database,
    despues: Database,
    nombre: Seq<char>,
    direccion: Seq<char>,
    st: Seq<i64>,
    ls: Seq<Linea>,
) -> bool {
    let id = (antes.last_order_id + 1) as i64;
    let o = despues.orders@.last();
    &&& despues.products@ == con_stocks(antes.products@, st)
    &&& despues.last_order_id == id
    &&& despues.orders@.len() == antes.orders@.len() + 1
    &&& despues.orders@.drop_last() == antes.orders@
    &&& o.id == id
    &&& o.customer_name@ == nombre
    &&& o.total == suma(ls)
    &&& o.status@ == "PENDIENTE"@
    &&& o.direccion@ == direccion
    &&& despues.order_items@ == antes.order_items@ + filas_items(ls, antes.last_item_id as int, id)
    &&& despues.last_item_id == antes.last_item_id + ls.len()
}

/// Registers an order of `carrito` for `nombre_cliente`, delivered to
/// `direccion`, all or nothing. On success it returns the announcement of
/// the order: its id, the customer's name, the total and status `PROCESADO`.
pub fn procesar_pedido_completo(
    conn: &mut Database,
    nombre_cliente: &str,
    direccion: &str,
    carrito: Vec<(i32, i32)>,
) -> (r: Result<OrderUpdate, OrderError>)
    ensures
        match resultado(*old(conn), carrito@) {
            Ok((st, ls)) => r matches Ok(u) && pedido_registrado(
                *old(conn),
                *final(conn),
                nombre_cliente@,
                direccion@,
                st,
                ls,
            ) && u.id == final(conn).last_order_id && u.customer_name@ == nombre_cliente@
                && u.total == suma(ls) && u.status@ == "PROCESADO"@,
            Err(e) => r matches Err(f) && f == e && *final(conn) == *old(conn),
        },
{
    if conn.last_order_id == i64::MAX {
        return Err(OrderError::RowIdExhausted);
    }
    let order_id = conn.last_order_id + 1;
    let plan = match planificar(&conn.products, &carrito, conn.last_item_id) {
        Ok(p) => p,
        Err(e) => {
            return Err(e);
        },
    };
    proof {
        lemma_forma(conn.products@, carrito@, conn.last_item_id as int);
    }
    actualizar_stocks(&mut conn.products, &plan.stocks);
    registrar_lineas(&mut conn.order_items, &mut conn.last_item_id, order_id, &plan.lineas);
    let ghost antes = conn.orders@;
    conn.orders.push(
        OrderRecord {
            id: order_id,
            customer_name: String::from_str(nombre_cliente),
            total: plan.total,
            status: String::from_str("PENDIENTE"),
            direccion: String::from_str(direccion),
        },
    );
    assert(conn.orders@.drop_last() =~= antes);
    conn.last_order_id = order_id;
    Ok(
        OrderUpdate {
            id: order_id,
            customer_name: String::from_str(nombre_cliente),
            total: plan.total,
            status: String::from_str("PROCESADO"),
        },
    )
}

} // verus!
