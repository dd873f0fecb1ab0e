//! Registering a complete order in the database, all or nothing.

use vstd::prelude::*;
use crate::inventario::{
    actualizar_stocks, aplicar, con_stocks, filas_items, lemma_forma, planificar, registrar_lineas,
    suma, Linea, OrderError,
};
use crate::models::Order;
use crate::schema::Database;

verus! {

/// The sending half of a `tokio::sync::broadcast` channel, which callers
/// hand to the order functions; it is carried as an opaque value.
#[verifier::external_type_specification]
#[verifier::external_body]
#[verifier::reject_recursive_types(T)]
pub struct ExSender<T>(tokio::sync::broadcast::Sender<T>);

/// What an order of `carrito` comes to on `db`: the new stocks and the
/// lines, or the refusal. The order's own id is taken first.
pub open spec fn resultado(db: Database, carrito: Seq<(i32, i32)>) -> Result<
    (Seq<i64>, Seq<Linea>),
    OrderError,
> {
    if db.last_order_id == i64::MAX {
        Err(OrderError::RowIdExhausted)
    } else {
        aplicar(db.products@, carrito, db.last_item_id as int)
    }
}

/// The row of `orders` that an accepted order adds.
pub open spec fn fila_pedido(o: Order, id: i64, customer_id: i32, total: int, direccion: Seq<char>) -> bool {
    &&& o.id == id
    &&& o.customer_id == customer_id
    &&& o.total == total
    &&& o.status@ == "PENDIENTE"@
    &&& o.direccion@ == direccion
}

/// `despues` is `antes` with the accepted order (stocks `st`, lines `ls`)
/// registered: stocks replaced, one order row and one item row per line
/// appended, with fresh ids.
pub open spec fn pedido_registrado(
    antes: Database,
    despues: Database,
    customer_id: i32,
    direccion: Seq<char>,
    st: Seq<i64>,
    ls: Seq<Linea>,
) -> bool {
    let id = (antes.last_order_id + 1) as i64;
    &&& despues.products@ == con_stocks(antes.products@, st)
    &&& despues.customers@ == antes.customers@
    &&& despues.last_order_id == id
    &&& despues.orders@.len() == antes.orders@.len() + 1
    &&& despues.orders@.drop_last() == antes.orders@
    &&& fila_pedido(despues.orders@.last(), id, customer_id, suma(ls), direccion)
    &&& despues.order_items@ == antes.order_items@ + filas_items(ls, antes.last_item_id as int, id)
    &&& despues.last_item_id == antes.last_item_id + ls.len()
}

/// Registers an order of `carrito` for customer `customer_id`, delivered to
/// `direccion`: either the whole order is recorded and the stocks are
/// lowered, or the database is left exactly as it was and the refusal is
/// returned.
pub fn procesar_pedido_completo(
    conn: &mut Database,
    customer_id: i32,
    carrito: Vec<(i32, i32)>,
    notifier: &tokio::sync::broadcast::Sender<String>,
    nombre_cliente: &str,
    telefono: &str,
    direccion: &str,
) -> (r: Result<(), OrderError>)
    ensures
        match resultado(*old(conn), carrito@) {
            Ok((st, ls)) => r is Ok && pedido_registrado(
                *old(conn),
                *final(conn),
                customer_id,
                direccion@,
                st,
                ls,
            ),
            Err(e) => r == Err::<(), OrderError>(e) && *final(conn) == *old(conn),
        },
{
    if conn.last_order_id == i64::MAX {
        return Err(OrderError::RowIdExhausted);
    }
    let order_id = conn.last_order_id + 1;
    let plan = match planificar(&conn.products, &carrito, conn.last_item_id) {
        Ok(p) => p,
        Err(e) => {
            return Err(e);
        },
    };
    proof {
        lemma_forma(conn.products@, carrito@, conn.last_item_id as int);
    }
    actualizar_stocks(&mut conn.products, &plan.stocks);
    registrar_lineas(&mut conn.order_items, &mut conn.last_item_id, order_id, &plan.lineas);
    let ghost antes = conn.orders@;
    conn.orders.push(
        Order {
            id: order_id,
            customer_id: customer_id,
            total: plan.total,
            status: String::from_str("PENDIENTE"),
            direccion: String::from_str(direccion),
        },
    );
    assert(conn.orders@.drop_last() =~= antes);
    conn.last_order_id = order_id;
    Ok(())
}

} // verus!
