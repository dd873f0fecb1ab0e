//! Properties of the order engine that hold of every input.

use vstd::prelude::*;
use crate::bot;
use crate::db;
use crate::inventario::{
    aplicar, con_stocks, es_primero, filas_items, indice, lemma_forma, lemma_primero_unico,
    stocks_de, suma, Linea, OrderError,
};
use crate::logic;
use crate::models::Product;
use crate::schema::Database;

verus! {

/// Total quantity that the cart asks of the product at position `k`.
pub open spec fn pedido_de(ps: Seq<Product>, cart: Seq<(i32, i32)>, k: int) -> int
    decreases cart.len(),
{
    if cart.len() == 0 {
        0
    } else {
        pedido_de(ps, cart.drop_last(), k) + if indice(ps, cart.last().0) == k {
            cart.last().1 as int
        } else {
            0
        }
    }
}

/// Some pair of the cart asks for the product at position `k`.
pub open spec fn tocado(ps: Seq<Product>, cart: Seq<(i32, i32)>, k: int) -> bool {
    exists|j: int| 0 <= j < cart.len() && indice(ps, #[trigger] cart[j].0) == k
}

/// `l` is the line that the pair `item` yields: the pair's product, which
/// exists, and quantity, with the product's price times the quantity.
pub open spec fn linea_de(ps: Seq<Product>, item: (i32, i32), l: Linea) -> bool {
    let k = indice(ps, item.0);
    &&& 0 <= k < ps.len()
    &&& l.product_id == item.0
    &&& l.quantity == item.1
    &&& l.subtotal == ps[k].price * item.1
}

/// An accepted cart gives one line per pair, in the cart's order: the
/// pair's product and quantity, and as subtotal the product's price times
/// the quantity; every pair names an existing product.
pub proof fn ley_lineas(ps: Seq<Product>, cart: Seq<(i32, i32)>, base: int)
    ensures
        aplicar(ps, cart, base) matches Ok((st, ls)) ==> {
            &&& ls.len() == cart.len()
            &&& forall|j: int| 0 <= j < cart.len() ==> linea_de(ps, cart[j], #[trigger] ls[j])
        },
    decreases cart.len(),
{
    if cart.len() > 0 {
        let prev = cart.drop_last();
        ley_lineas(ps, prev, base);
        if let Ok((st, ls)) = aplicar(ps, cart, base) {
            let (st0, ls0) = aplicar(ps, prev, base)->Ok_0;
            assert forall|j: int| 0 <= j < cart.len() implies linea_de(ps, cart[j], #[trigger] ls[j]) by {
                if j < cart.len() - 1 {
                    assert(cart[j] == prev[j]);
                    assert(ls[j] == ls0[j]);
                } else {
                    let kk = indice(ps, cart[j].0);
                    let c = choose|k: int| es_primero(ps, cart[j].0, k);
                    assert(es_primero(ps, cart[j].0, c));
                    let p = ps[kk].price;
                    let q = cart[j].1;
                    assert(-0x4000_0000_0000_0000 <= p * q <= 0x4000_0000_0000_0000)
                        by (nonlinear_arith)
                        requires
                            i32::MIN <= p <= i32::MAX,
                            i32::MIN <= q <= i32::MAX,
                    ;
                }
            }
        }
    }
}

/// After an accepted cart, the stock of every product is its stock before,
/// less the total quantity that the cart asked of it.
pub proof fn ley_stock_descontado(ps: Seq<Product>, cart: Seq<(i32, i32)>, base: int)
    ensures
        aplicar(ps, cart, base) matches Ok((st, ls)) ==> {
            &&& st.len() == ps.len()
            &&& forall|k: int|
                0 <= k < ps.len() ==> #[trigger] st[k] == ps[k].stock - pedido_de(ps, cart, k)
        },
    decreases cart.len(),
{
    if cart.len() > 0 {
        let prev = cart.drop_last();
        ley_stock_descontado(ps, prev, base);
    }
}

/// After an accepted cart, every product that the cart asked for is left
/// with a stock of zero or more.
pub proof fn ley_stock_no_negativo(ps: Seq<Product>, cart: Seq<(i32, i32)>, base: int)
    ensures
        aplicar(ps, cart, base) matches Ok((st, ls)) ==> forall|k: int|
            0 <= k < ps.len() && tocado(ps, cart, k) ==> #[trigger] st[k] >= 0,
    decreases cart.len(),
{
    if cart.len() > 0 {
        let prev = cart.drop_last();
        ley_stock_no_negativo(ps, prev, base);
        ley_stock_descontado(ps, prev, base);
        if let Ok((st, ls)) = aplicar(ps, cart, base) {
            let (st0, ls0) = aplicar(ps, prev, base)->Ok_0;
            let kk = indice(ps, cart.last().0);
            assert forall|k: int| 0 <= k < ps.len() && tocado(ps, cart, k) implies #[trigger] st[k]
                >= 0 by {
                if k != kk {
                    let j = choose|j: int| 0 <= j < cart.len() && indice(ps, #[trigger] cart[j].0) == k;
                    assert(j < cart.len() - 1);
                    assert(prev[j] == cart[j]);
                    assert(tocado(ps, prev, k));
                }
            }
        }
    }
}

proof fn lemma_indice_con_stocks(ps: Seq<Product>, st: Seq<i64>, id: i32)
    requires
        st.len() == ps.len(),
    ensures
        indice(con_stocks(ps, st), id) == indice(ps, id),
{
    let cs = con_stocks(ps, st);
    if exists|k: int| es_primero(ps, id, k) {
        let k = choose|k: int| es_primero(ps, id, k);
        assert(es_primero(cs, id, k));
        lemma_primero_unico(ps, id, k);
        lemma_primero_unico(cs, id, k);
    } else if exists|k: int| es_primero(cs, id, k) {
        let k = choose|k: int| es_primero(cs, id, k);
        assert forall|j: int| 0 <= j < k implies ps[j].id != id by {
            assert(cs[j].id == ps[j].id);
        }
        assert(es_primero(ps, id, k));
    }
}

/// A cart `a` followed by a cart `b` on the stocks that `a` left comes to
/// the same as the single cart `a + b`: the same refusal, or the same final
/// stocks and the lines of `a` followed by those of `b`.
pub proof fn ley_carritos_consecutivos(ps: Seq<Product>, a: Seq<(i32, i32)>, b: Seq<(i32, i32)>, base: int)
    requires
        base <= i64::MAX,
    ensures
        aplicar(ps, a + b, base) == match aplicar(ps, a, base) {
            Err(e) => Err(e),
            Ok((st, ls)) => match aplicar(con_stocks(ps, st), b, base + ls.len()) {
                Err(e) => Err(e),
                Ok((st2, ls2)) => Ok((st2, ls + ls2)),
            },
        },
    decreases b.len(),
{
    lemma_forma(ps, a, base);
    if b.len() == 0 {
        assert(a + b =~= a);
        if let Ok((st, ls)) = aplicar(ps, a, base) {
            let cs = con_stocks(ps, st);
            assert(stocks_de(cs) =~= st);
            assert(ls + Seq::<Linea>::empty() =~= ls);
        }
    } else {
        let b0 = b.drop_last();
        ley_carritos_consecutivos(ps, a, b0, base);
        assert((a + b).drop_last() =~= a + b0);
        assert((a + b).last() == b.last());
        if let Ok((st, ls)) = aplicar(ps, a, base) {
            let cs = con_stocks(ps, st);
            lemma_indice_con_stocks(ps, st, b.last().0);
            lemma_forma(cs, b0, base + ls.len());
            if let Ok((st2, ls2)) = aplicar(cs, b0, base + ls.len()) {
                let l0 = aplicar(cs, b, base + ls.len());
                if let Ok((st3, ls3)) = l0 {
                    assert(ls3 == ls2.push(ls3.last()));
                    assert(ls + ls3 =~= (ls + ls2).push(ls3.last()));
                }
            }
        }
    }
}

/// Sum over the cart's pairs of the product's price times the quantity.
pub open spec fn suma_carrito(ps: Seq<Product>, cart: Seq<(i32, i32)>) -> int
    decreases cart.len(),
{
    if cart.len() == 0 {
        0
    } else {
        suma_carrito(ps, cart.drop_last()) + ps[indice(ps, cart.last().0)].price * cart.last().1
    }
}

/// The sum of no lines is zero, and one more line adds its subtotal.
pub proof fn ley_suma(ls: Seq<Linea>, l: Linea)
    ensures
        suma(Seq::<Linea>::empty()) == 0,
        suma(ls.push(l)) == suma(ls) + l.subtotal,
{
    assert(ls.push(l).drop_last() =~= ls);
}

/// The total of an accepted cart is the sum, over all its pairs, of the
/// product's price times the quantity.
pub proof fn ley_total(ps: Seq<Product>, cart: Seq<(i32, i32)>, base: int)
    ensures
        aplicar(ps, cart, base) matches Ok((st, ls)) ==> suma(ls) == suma_carrito(ps, cart),
    decreases cart.len(),
{
    if cart.len() > 0 {
        let prev = cart.drop_last();
        ley_total(ps, prev, base);
        ley_lineas(ps, cart, base);
        ley_lineas(ps, prev, base);
        if let Ok((st, ls)) = aplicar(ps, cart, base) {
            let (st0, ls0) = aplicar(ps, prev, base)->Ok_0;
            let j = cart.len() - 1;
            assert(linea_de(ps, cart[j], ls[j]));
            assert(ls.drop_last() =~= ls0);
            ley_suma(ls0, ls.last());
            assert(ls0.push(ls.last()) =~= ls);
        }
    }
}

/// Pair `j` of the cart can be served: its product exists, the stock left
/// after the earlier pairs fits an `i32` and covers the quantity, and an
/// item id is free for it.
pub open spec fn puede(ps: Seq<Product>, cart: Seq<(i32, i32)>, base: int, j: int) -> bool {
    let k = indice(ps, cart[j].0);
    let resto = ps[k].stock - pedido_de(ps, cart.take(j), k);
    &&& 0 <= k < ps.len()
    &&& i32::MIN <= resto <= i32::MAX
    &&& resto >= cart[j].1
    &&& base + j < i64::MAX
}

/// A cart is accepted exactly when every one of its pairs can be served.
pub proof fn ley_aceptacion(ps: Seq<Product>, cart: Seq<(i32, i32)>, base: int)
    ensures
        aplicar(ps, cart, base) is Ok <==> forall|j: int|
            0 <= j < cart.len() ==> #[trigger] puede(ps, cart, base, j),
    decreases cart.len(),
{
    if cart.len() > 0 {
        let n = cart.len() - 1;
        let prev = cart.drop_last();
        ley_aceptacion(ps, prev, base);
        ley_stock_descontado(ps, prev, base);
        ley_lineas(ps, prev, base);
        assert(cart.take(n) =~= prev);
        assert forall|j: int| 0 <= j < n implies puede(ps, prev, base, j) == puede(ps, cart, base, j) by {
            assert(prev.take(j) =~= cart.take(j));
            assert(prev[j] == cart[j]);
        }
        let k = indice(ps, cart[n].0);
        if k >= 0 {
            let c = choose|k: int| es_primero(ps, cart[n].0, k);
            assert(es_primero(ps, cart[n].0, c));
        }
        assert(cart.last() == cart[n]);
        if let Ok((st, ls)) = aplicar(ps, prev, base) {
            assert(ls.len() == n);
            if 0 <= k < ps.len() {
                assert(st[k] == ps[k].stock - pedido_de(ps, cart.take(n), k));
            }
            if puede(ps, cart, base, n) {
                assert(aplicar(ps, cart, base) is Ok);
                assert forall|j: int| 0 <= j < cart.len() implies #[trigger] puede(ps, cart, base, j) by {
                    if j < n {
                        assert(puede(ps, prev, base, j));
                    }
                }
            } else {
                assert(aplicar(ps, cart, base) is Err);
                assert(!(forall|j: int| 0 <= j < cart.len() ==> #[trigger] puede(ps, cart, base, j)));
            }
        } else {
            let j0 = choose|j: int| 0 <= j < n && !#[trigger] puede(ps, prev, base, j);
            assert(!puede(ps, cart, base, j0));
            assert(aplicar(ps, cart, base) is Err);
        }
    }
}

/// The rows that lines become: row `j` takes the `j`-th id after `base`,
/// the order's id, and the line's product, quantity and subtotal.
pub proof fn ley_filas_items(ls: Seq<Linea>, base: int, order_id: i64)
    requires
        base + ls.len() <= i64::MAX,
        base >= i64::MIN,
    ensures
        filas_items(ls, base, order_id).len() == ls.len(),
        forall|j: int|
            0 <= j < ls.len() ==> {
                let it = #[trigger] filas_items(ls, base, order_id)[j];
                &&& it.id == base + j + 1
                &&& it.order_id == order_id
                &&& it.product_id == ls[j].product_id
                &&& it.quantity == ls[j].quantity
                &&& it.subtotal == ls[j].subtotal
            },
{
}

/// An order on the database is accepted exactly when an order id is free
/// and every pair of the cart can be served.
pub proof fn ley_aceptacion_db(db: Database, carrito: Seq<(i32, i32)>)
    ensures
        db::resultado(db, carrito) is Ok <==> (db.last_order_id < i64::MAX && forall|j: int|
            0 <= j < carrito.len() ==> #[trigger] puede(db.products@, carrito, db.last_item_id as int, j)),
{
    ley_aceptacion(db.products@, carrito, db.last_item_id as int);
}

/// An order on the gateway's database is accepted exactly when an order id
/// is free and every pair of the cart can be served.
pub proof fn ley_aceptacion_logic(db: logic::Database, carrito: Seq<(i32, i32)>)
    ensures
        logic::resultado(db, carrito) is Ok <==> (db.last_order_id < i64::MAX && forall|j: int|
            0 <= j < carrito.len() ==> #[trigger] puede(db.products@, carrito, db.last_item_id as int, j)),
{
    ley_aceptacion(db.products@, carrito, db.last_item_id as int);
}

/// An accepted order on the database adds one order row (the next id, the
/// customer, the sum of price times quantity over the cart, `PENDIENTE`,
/// the address), one item row per cart pair carrying the order's id and
/// the pair's product, quantity and subtotal, lowers each product's stock
/// by what the cart asked of it, and keeps every earlier row and customer.
pub proof fn ley_pedido_db(
    antes: Database,
    despues: Database,
    customer_id: i32,
    direccion: Seq<char>,
    carrito: Seq<(i32, i32)>,
)
    requires
        db::resultado(antes, carrito) matches Ok((st, ls)) && db::pedido_registrado(
            antes,
            despues,
            customer_id,
            direccion,
            st,
            ls,
        ),
    ensures
        despues.orders@.len() == antes.orders@.len() + 1,
        forall|i: int| 0 <= i < antes.orders@.len() ==> despues.orders@[i] == antes.orders@[i],
        despues.orders@.last().id == antes.last_order_id + 1,
        despues.last_order_id == antes.last_order_id + 1,
        despues.orders@.last().customer_id == customer_id,
        despues.orders@.last().total == suma_carrito(antes.products@, carrito),
        despues.orders@.last().status@ == "PENDIENTE"@,
        despues.orders@.last().direccion@ == direccion,
        despues.order_items@.len() == antes.order_items@.len() + carrito.len(),
        despues.last_item_id == antes.last_item_id + carrito.len(),
        forall|i: int|
            0 <= i < antes.order_items@.len() ==> despues.order_items@[i] == antes.order_items@[i],
        forall|j: int|
            0 <= j < carrito.len() ==> {
                let it = despues.order_items@[antes.order_items@.len() + j];
                let k = indice(antes.products@, (#[trigger] carrito[j]).0);
                &&& 0 <= k < antes.products@.len()
                &&& it.id == antes.last_item_id + j + 1
                &&& it.order_id == antes.last_order_id + 1
                &&& it.product_id == carrito[j].0
                &&& it.quantity == carrito[j].1
                &&& it.subtotal == antes.products@[k].price * carrito[j].1
            },
        despues.products@.len() == antes.products@.len(),
        forall|k: int|
            0 <= k < antes.products@.len() ==> {
                let p = #[trigger] despues.products@[k];
                &&& p.id == antes.products@[k].id
                &&& p.name == antes.products@[k].name
                &&& p.price == antes.products@[k].price
                &&& p.stock == antes.products@[k].stock - pedido_de(antes.products@, carrito, k)
            },
        despues.customers@ == antes.customers@,
{
    let ps = antes.products@;
    let base = antes.last_item_id as int;
    lemma_forma(ps, carrito, base);
    ley_lineas(ps, carrito, base);
    ley_total(ps, carrito, base);
    ley_stock_descontado(ps, carrito, base);
    let (st, ls) = db::resultado(antes, carrito)->Ok_0;
    let id = (antes.last_order_id + 1) as i64;
    ley_filas_items(ls, base, id);
    let m = antes.order_items@.len();
    assert forall|i: int| 0 <= i < antes.orders@.len() implies despues.orders@[i] == antes.orders@[i] by {
        assert(despues.orders@.drop_last()[i] == despues.orders@[i]);
    }
    assert forall|i: int| 0 <= i < m implies despues.order_items@[i] == antes.order_items@[i] by {
        assert((antes.order_items@ + filas_items(ls, base, id))[i] == antes.order_items@[i]);
    }
    assert forall|j: int| 0 <= j < carrito.len() implies {
        let it = despues.order_items@[m + j];
        let k = indice(ps, (#[trigger] carrito[j]).0);
        &&& 0 <= k < ps.len()
        &&& it.id == antes.last_item_id + j + 1
        &&& it.order_id == antes.last_order_id + 1
        &&& it.product_id == carrito[j].0
        &&& it.quantity == carrito[j].1
        &&& it.subtotal == ps[k].price * carrito[j].1
    } by {
        assert(despues.order_items@[m + j] == filas_items(ls, base, id)[j]);
        assert(linea_de(ps, carrito[j], ls[j]));
    }
}

/// An accepted order on the gateway's database adds one order row (the
/// next id, the customer's name, the sum of price times quantity over the
/// cart, `PENDIENTE`, the address), one item row per cart pair carrying the
/// order's id and the pair's product, quantity and subtotal, lowers each
/// product's stock by what the cart asked of it, and keeps every earlier row.
pub proof fn ley_pedido_logic(
    antes: logic::Database,
    despues: logic::Database,
    nombre: Seq<char>,
    direccion: Seq<char>,
    carrito: Seq<(i32, i32)>,
)
    requires
        logic::resultado(antes, carrito) matches Ok((st, ls)) && logic::pedido_registrado(
            antes,
            despues,
            nombre,
            direccion,
            st,
            ls,
        ),
    ensures
        despues.orders@.len() == antes.orders@.len() + 1,
        forall|i: int| 0 <= i < antes.orders@.len() ==> despues.orders@[i] == antes.orders@[i],
        despues.orders@.last().id == antes.last_order_id + 1,
        despues.last_order_id == antes.last_order_id + 1,
        despues.orders@.last().customer_name@ == nombre,
        despues.orders@.last().total == suma_carrito(antes.products@, carrito),
        despues.orders@.last().status@ == "PENDIENTE"@,
        despues.orders@.last().direccion@ == direccion,
        despues.order_items@.len() == antes.order_items@.len() + carrito.len(),
        despues.last_item_id == antes.last_item_id + carrito.len(),
        forall|i: int|
            0 <= i < antes.order_items@.len() ==> despues.order_items@[i] == antes.order_items@[i],
        forall|j: int|
            0 <= j < carrito.len() ==> {
                let it = despues.order_items@[antes.order_items@.len() + j];
                let k = indice(antes.products@, (#[trigger] carrito[j]).0);
                &&& 0 <= k < antes.products@.len()
                &&& it.id == antes.last_item_id + j + 1
                &&& it.order_id == antes.last_order_id + 1
                &&& it.product_id == carrito[j].0
                &&& it.quantity == carrito[j].1
                &&& it.subtotal == antes.products@[k].price * carrito[j].1
            },
        despues.products@.len() == antes.products@.len(),
        forall|k: int|
            0 <= k < antes.products@.len() ==> {
                let p = #[trigger] despues.products@[k];
                &&& p.id == antes.products@[k].id
                &&& p.name == antes.products@[k].name
                &&& p.price == antes.products@[k].price
                &&& p.stock == antes.products@[k].stock - pedido_de(antes.products@, carrito, k)
            },
{
    let ps = antes.products@;
    let base = antes.last_item_id as int;
    lemma_forma(ps, carrito, base);
    ley_lineas(ps, carrito, base);
    ley_total(ps, carrito, base);
    ley_stock_descontado(ps, carrito, base);
    let (st, ls) = logic::resultado(antes, carrito)->Ok_0;
    let id = (antes.last_order_id + 1) as i64;
    ley_filas_items(ls, base, id);
    let m = antes.order_items@.len();
    assert forall|i: int| 0 <= i < antes.orders@.len() implies despues.orders@[i] == antes.orders@[i] by {
        assert(despues.orders@.drop_last()[i] == despues.orders@[i]);
    }
    assert forall|i: int| 0 <= i < m implies despues.order_items@[i] == antes.order_items@[i] by {
        assert((antes.order_items@ + filas_items(ls, base, id))[i] == antes.order_items@[i]);
    }
    assert forall|j: int| 0 <= j < carrito.len() implies {
        let it = despues.order_items@[m + j];
        let k = indice(ps, (#[trigger] carrito[j]).0);
        &&& 0 <= k < ps.len()
        &&& it.id == antes.last_item_id + j + 1
        &&& it.order_id == antes.last_order_id + 1
        &&& it.product_id == carrito[j].0
        &&& it.quantity == carrito[j].1
        &&& it.subtotal == ps[k].price * carrito[j].1
    } by {
        assert(despues.order_items@[m + j] == filas_items(ls, base, id)[j]);
        assert(linea_de(ps, carrito[j], ls[j]));
    }
}

/// The decimal text of a digit.
pub open spec fn texto_digito(n: int) -> Seq<char> {
    seq![(n + 48) as char]
}

/// The product that a chat message names is the number that the message
/// spells: "1", "2" and "3" name products 1, 2 and 3, and no other text
/// names a product.
pub proof fn ley_producto_elegido(m: Seq<char>)
    ensures
        forall|n: i32| 1 <= n <= 3 ==> bot::producto_elegido(#[trigger] texto_digito(n as int)) == Some(n),
        bot::producto_elegido(m) matches Some(n) ==> 1 <= n <= 3 && m == texto_digito(n as int),
{
    reveal_strlit("1");
    reveal_strlit("2");
    reveal_strlit("3");
    assert(texto_digito(1) =~= "1"@);
    assert(texto_digito(2) =~= "2"@);
    assert(texto_digito(3) =~= "3"@);
    assert(texto_digito(1) != texto_digito(2) && texto_digito(1) != texto_digito(3)
        && texto_digito(2) != texto_digito(3)) by {
        assert(texto_digito(1)[0] != texto_digito(2)[0]);
        assert(texto_digito(1)[0] != texto_digito(3)[0]);
        assert(texto_digito(2)[0] != texto_digito(3)[0]);
    }
}

/// Why pair `j` cannot be served, from the stock left after the earlier
/// pairs: no such product, a stock that does not fit an `i32`, too little
/// stock, or else no free item id.
pub open spec fn motivo(ps: Seq<Product>, cart: Seq<(i32, i32)>, base: int, j: int) -> OrderError {
    let id = cart[j].0;
    let k = indice(ps, id);
    let resto = ps[k].stock - pedido_de(ps, cart.take(j), k);
    if !(0 <= k < ps.len()) {
        OrderError::ProductNotFound(id)
    } else if resto < i32::MIN || resto > i32::MAX {
        OrderError::StockOutOfRange(id, resto as i64)
    } else if resto < cart[j].1 {
        OrderError::InsufficientStock(id, resto as i32, cart[j].1)
    } else {
        OrderError::RowIdExhausted
    }
}

/// A refused cart is refused at its first pair that cannot be served, and
/// for that pair's reason.
pub proof fn ley_rechazo(ps: Seq<Product>, cart: Seq<(i32, i32)>, base: int)
    ensures
        aplicar(ps, cart, base) matches Err(e) ==> exists|j: int|
            0 <= j < cart.len() && (forall|i: int| 0 <= i < j ==> #[trigger] puede(ps, cart, base, i))
                && !puede(ps, cart, base, j) && e == #[trigger] motivo(ps, cart, base, j),
    decreases cart.len(),
{
    if cart.len() > 0 {
        let n = cart.len() - 1;
        let prev = cart.drop_last();
        ley_rechazo(ps, prev, base);
        ley_aceptacion(ps, prev, base);
        ley_aceptacion(ps, cart, base);
        ley_stock_descontado(ps, prev, base);
        ley_lineas(ps, prev, base);
        assert(cart.take(n) =~= prev);
        assert forall|j: int| 0 <= j < n implies puede(ps, prev, base, j) == puede(ps, cart, base, j)
            && motivo(ps, prev, base, j) == motivo(ps, cart, base, j) by {
            assert(prev.take(j) =~= cart.take(j));
            assert(prev[j] == cart[j]);
        }
        let k = indice(ps, cart[n].0);
        if k >= 0 {
            let c = choose|k: int| es_primero(ps, cart[n].0, k);
            assert(es_primero(ps, cart[n].0, c));
        }
        assert(cart.last() == cart[n]);
        if let Err(e) = aplicar(ps, cart, base) {
            if let Err(e0) = aplicar(ps, prev, base) {
                let j = choose|j: int|
                    0 <= j < prev.len() && (forall|i: int| 0 <= i < j ==> #[trigger] puede(ps, prev, base, i))
                        && !puede(ps, prev, base, j) && e0 == #[trigger] motivo(ps, prev, base, j);
                assert forall|i: int| 0 <= i < j implies #[trigger] puede(ps, cart, base, i) by {
                    assert(puede(ps, prev, base, i));
                }
                assert(motivo(ps, cart, base, j) == e);
            } else {
                let (st, ls) = aplicar(ps, prev, base)->Ok_0;
                assert(ls.len() == n);
                if 0 <= k < ps.len() {
                    assert(st[k] == ps[k].stock - pedido_de(ps, cart.take(n), k));
                }
                assert forall|i: int| 0 <= i < n implies #[trigger] puede(ps, cart, base, i) by {
                    assert(puede(ps, prev, base, i));
                }
                assert(!puede(ps, cart, base, n));
                assert(motivo(ps, cart, base, n) == e);
            }
        }
    }
}

/// A refused order on the database is refused because no order id is
/// free, or at the cart's first pair that cannot be served, for its reason.
pub proof fn ley_rechazo_db(db: Database, carrito: Seq<(i32, i32)>)
    ensures
        db::resultado(db, carrito) matches Err(e) ==> (db.last_order_id == i64::MAX
            && e == OrderError::RowIdExhausted) || (db.last_order_id < i64::MAX && exists|j: int|
            0 <= j < carrito.len() && (forall|i: int|
                0 <= i < j ==> #[trigger] puede(db.products@, carrito, db.last_item_id as int, i))
                && !puede(db.products@, carrito, db.last_item_id as int, j) && e == #[trigger] motivo(
                db.products@,
                carrito,
                db.last_item_id as int,
                j,
            )),
{
    ley_rechazo(db.products@, carrito, db.last_item_id as int);
}

/// A refused order on the gateway's database is refused because no order
/// id is free, or at the cart's first pair that cannot be served, for its
/// reason.
pub proof fn ley_rechazo_logic(db: logic::Database, carrito: Seq<(i32, i32)>)
    ensures
        logic::resultado(db, carrito) matches Err(e) ==> (db.last_order_id == i64::MAX
            && e == OrderError::RowIdExhausted) || (db.last_order_id < i64::MAX && exists|j: int|
            0 <= j < carrito.len() && (forall|i: int|
                0 <= i < j ==> #[trigger] puede(db.products@, carrito, db.last_item_id as int, i))
                && !puede(db.products@, carrito, db.last_item_id as int, j) && e == #[trigger] motivo(
                db.products@,
                carrito,
                db.last_item_id as int,
                j,
            )),
{
    ley_rechazo(db.products@, carrito, db.last_item_id as int);
}

/// `indice` finds a product: when it gives a position, the product there
/// has the id and none before it does; when it gives -1, no product has it.
pub proof fn ley_indice(ps: Seq<Product>, id: i32)
    ensures
        indice(ps, id) == -1 || 0 <= indice(ps, id) < ps.len(),
        0 <= indice(ps, id) ==> ps[indice(ps, id)].id == id && forall|j: int|
            0 <= j < indice(ps, id) ==> ps[j].id != id,
        indice(ps, id) == -1 ==> forall|j: int| 0 <= j < ps.len() ==> ps[j].id != id,
{
    if exists|k: int| es_primero(ps, id, k) {
        let k = choose|k: int| es_primero(ps, id, k);
        assert(es_primero(ps, id, k));
    } else {
        assert forall|j: int| 0 <= j < ps.len() implies ps[j].id != id by {
            if ps[j].id == id {
                lemma_existe_primero(ps, id, j);
            }
        }
    }
}

/// Replacing the stock column changes the stocks and nothing else.
pub proof fn ley_con_stocks(ps: Seq<Product>, st: Seq<i64>)
    requires
        st.len() == ps.len(),
    ensures
        con_stocks(ps, st).len() == ps.len(),
        forall|k: int|
            0 <= k < ps.len() ==> {
                let p = #[trigger] con_stocks(ps, st)[k];
                &&& p.id == ps[k].id
                &&& p.name == ps[k].name
                &&& p.price == ps[k].price
                &&& p.stock == st[k]
            },
{
}

/// Every order and item id of the database is at most its counter.
pub open spec fn ids_acotados(db: Database) -> bool {
    &&& forall|i: int| 0 <= i < db.orders@.len() ==> (#[trigger] db.orders@[i]).id <= db.last_order_id
    &&& forall|i: int|
        0 <= i < db.order_items@.len() ==> (#[trigger] db.order_items@[i]).id <= db.last_item_id
}

/// Registering an accepted order keeps every id at most its counter, and
/// the order and item ids it hands out are larger than every id before it.
pub proof fn ley_ids_frescos(
    antes: Database,
    despues: Database,
    customer_id: i32,
    direccion: Seq<char>,
    carrito: Seq<(i32, i32)>,
)
    requires
        ids_acotados(antes),
        db::resultado(antes, carrito) matches Ok((st, ls)) && db::pedido_registrado(
            antes,
            despues,
            customer_id,
            direccion,
            st,
            ls,
        ),
    ensures
        ids_acotados(despues),
        despues.orders@.last().id > antes.last_order_id,
        forall|j: int|
            antes.order_items@.len() <= j < despues.order_items@.len() ==> (
            #[trigger] despues.order_items@[j]).id > antes.last_item_id,
{
    lemma_forma(antes.products@, carrito, antes.last_item_id as int);
    let n = antes.orders@.len();
    assert forall|i: int| 0 <= i < despues.orders@.len() implies (
    #[trigger] despues.orders@[i]).id <= despues.last_order_id by {
        if i < n {
            assert(despues.orders@[i] == despues.orders@.drop_last()[i]);
        }
    }
    let m = antes.order_items@.len();
    assert forall|i: int| 0 <= i < despues.order_items@.len() implies (
    #[trigger] despues.order_items@[i]).id <= despues.last_item_id by {
        if i < m {
            assert(despues.order_items@[i] == antes.order_items@[i]);
        }
    }
}

/// Every order and item id of the gateway's database is at most its counter.
pub open spec fn ids_acotados_logic(db: logic::Database) -> bool {
    &&& forall|i: int| 0 <= i < db.orders@.len() ==> (#[trigger] db.orders@[i]).id <= db.last_order_id
    &&& forall|i: int|
        0 <= i < db.order_items@.len() ==> (#[trigger] db.order_items@[i]).id <= db.last_item_id
}

/// In the gateway's database too, registering an accepted order keeps every
/// id at most its counter, and the ids it hands out are larger than every
/// id before it.
pub proof fn ley_ids_frescos_logic(
    antes: logic::Database,
    despues: logic::Database,
    nombre: Seq<char>,
    direccion: Seq<char>,
    carrito: Seq<(i32, i32)>,
)
    requires
        ids_acotados_logic(antes),
        logic::resultado(antes, carrito) matches Ok((st, ls)) && logic::pedido_registrado(
            antes,
            despues,
            nombre,
            direccion,
            st,
            ls,
        ),
    ensures
        ids_acotados_logic(despues),
        despues.orders@.last().id > antes.last_order_id,
        forall|j: int|
            antes.order_items@.len() <= j < despues.order_items@.len() ==> (
            #[trigger] despues.order_items@[j]).id > antes.last_item_id,
{
    lemma_forma(antes.products@, carrito, antes.last_item_id as int);
    let n = antes.orders@.len();
    assert forall|i: int| 0 <= i < despues.orders@.len() implies (
    #[trigger] despues.orders@[i]).id <= despues.last_order_id by {
        if i < n {
            assert(despues.orders@[i] == despues.orders@.drop_last()[i]);
        }
    }
    let m = antes.order_items@.len();
    assert forall|i: int| 0 <= i < despues.order_items@.len() implies (
    #[trigger] despues.order_items@[i]).id <= despues.last_item_id by {
        if i < m {
            assert(despues.order_items@[i] == antes.order_items@[i]);
        }
    }
}

proof fn lemma_existe_primero(ps: Seq<Product>, id: i32, j: int)
    requires
        0 <= j < ps.len(),
        ps[j].id == id,
    ensures
        indice(ps, id) >= 0,
    decreases j,
{
    if exists|i: int| 0 <= i < j && ps[i].id == id {
        let i = choose|i: int| 0 <= i < j && ps[i].id == id;
        lemma_existe_primero(ps, id, i);
    } else {
        lemma_primero_unico(ps, id, j);
    }
}

proof fn lemma_prefijo(a: Seq<Product>, b: Seq<Product>, id: i32)
    requires
        indice(a, id) >= 0,
        a.len() <= b.len(),
        b.take(a.len() as int) == a,
    ensures
        indice(b, id) >= 0,
{
    let k = choose|k: int| es_primero(a, id, k);
    assert(es_primero(a, id, k));
    assert(b[k] == a[k]);
    lemma_existe_primero(b, id, k);
}

proof fn lemma_sembrado(antes: Seq<Product>, despues: Seq<Product>, id: i32, name: Seq<char>, price: i32, stock: i64)
    requires
        logic::sembrado(antes, despues, id, name, price, stock),
    ensures
        indice(despues, id) >= 0,
        antes.len() <= despues.len(),
        despues.take(antes.len() as int) == antes,
{
    if indice(antes, id) >= 0 {
        assert(despues.take(antes.len() as int) =~= antes);
    } else {
        assert(despues.take(antes.len() as int) =~= despues.drop_last());
        lemma_existe_primero(despues, id, antes.len() as int);
    }
}

/// Preparing the database twice leaves the products as preparing it once.
pub proof fn ley_setup_idempotente(a: Seq<Product>, b: Seq<Product>, c: Seq<Product>)
    requires
        logic::semillas(a, b),
        logic::semillas(b, c),
    ensures
        c == b,
{
    let n = if indice(a, 1) >= 0 {
        a.len()
    } else {
        a.len() + 1
    };
    let m = b.take(n as int);
    lemma_sembrado(a, m, 1, "Pizza Especial"@, 1500, 100);
    lemma_sembrado(m, b, 2, "Bebida 500ml"@, 500, 200);
    assert(b.take(m.len() as int) == m);
    assert(m.take(a.len() as int) =~= b.take(a.len() as int));
    lemma_prefijo(m, b, 1);
    assert(indice(b, 1) >= 0);
    assert(indice(b, 2) >= 0);
    let mc = c.take(b.len() as int);
    lemma_sembrado(b, mc, 1, "Pizza Especial"@, 1500, 100);
    assert(mc == b);
}

} // verus!
