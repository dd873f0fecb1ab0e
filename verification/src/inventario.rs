//! Checking a cart against the inventory.
//!
//! A cart is a list of `(product_id, quantity)` pairs, processed in order.
//! Each pair looks up its product, reads the stock that is left at that
//! point (earlier pairs of the same cart may already have taken from it),
//! refuses the whole cart if the stock is short, and otherwise yields one
//! order line and takes the quantity from the stock.

use vstd::prelude::*;
use crate::models::{OrderItem, Product};

verus! {

/// One accepted pair of a cart: what becomes a row of `order_items`.
#[derive(Clone, Copy, Debug, PartialEq, Eq, Structural)]
pub struct Linea {
    pub product_id: i32,
    pub quantity: i32,
    pub subtotal: i64,
}

/// Why a cart is refused.
#[derive(Clone, Copy, Debug, PartialEq, Eq, Structural)]
pub enum OrderError {
    /// No product has this id.
    ProductNotFound(i32),
    /// The product's stock does not fit an `i32`: (product id, stock).
    StockOutOfRange(i32, i64),
    /// Less stock than asked for: (product id, stock, quantity asked).
    InsufficientStock(i32, i32, i32),
    /// The largest row id has already been used.
    RowIdExhausted,
}

/// `k` is the first position of a product with this id.
pub open spec fn es_primero(ps: Seq<Product>, id: i32, k: int) -> bool {
    &&& 0 <= k < ps.len()
    &&& ps[k].id == id
    &&& forall|j: int| 0 <= j < k ==> ps[j].id != id
}

/// Position of the product with this id, or -1 when there is none.
pub open spec fn indice(ps: Seq<Product>, id: i32) -> int {
    if exists|k: int| es_primero(ps, id, k) {
        choose|k: int| es_primero(ps, id, k)
    } else {
        -1
    }
}

/// The stock column of the products, in order.
pub open spec fn stocks_de(ps: Seq<Product>) -> Seq<i64> {
    Seq::new(ps.len(), |k: int| ps[k].stock)
}

/// The products with their stock column replaced by `st`.
pub open spec fn con_stocks(ps: Seq<Product>, st: Seq<i64>) -> Seq<Product> {
    Seq::new(
        ps.len(),
        |k: int| Product { id: ps[k].id, name: ps[k].name, price: ps[k].price, stock: st[k] },
    )
}

/// One pair of the cart, given the stocks `st` left so far and the number
/// `hechas` of lines already accepted; line ids are handed out after `base`.
pub open spec fn paso(ps: Seq<Product>, st: Seq<i64>, hechas: int, base: int, item: (i32, i32)) -> Result<
    (Seq<i64>, Linea),
    OrderError,
> {
    let k = indice(ps, item.0);
    if k < 0 {
        Err(OrderError::ProductNotFound(item.0))
    } else if st[k] < i32::MIN || st[k] > i32::MAX {
        Err(OrderError::StockOutOfRange(item.0, st[k]))
    } else if st[k] < item.1 {
        Err(OrderError::InsufficientStock(item.0, st[k] as i32, item.1))
    } else if base + hechas >= i64::MAX {
        Err(OrderError::RowIdExhausted)
    } else {
        Ok(
            (
                st.update(k, (st[k] - item.1) as i64),
                Linea {
                    product_id: item.0,
                    quantity: item.1,
                    subtotal: (ps[k].price * item.1) as i64,
                },
            ),
        )
    }
}

/// The whole cart: the stocks after it and its lines, or the first refusal.
pub open spec fn aplicar(ps: Seq<Product>, cart: Seq<(i32, i32)>, base: int) -> Result<
    (Seq<i64>, Seq<Linea>),
    OrderError,
>
    decreases cart.len(),
{
    if cart.len() == 0 {
        Ok((stocks_de(ps), Seq::empty()))
    } else {
        match aplicar(ps, cart.drop_last(), base) {
            Err(e) => Err(e),
            Ok((st, ls)) => match paso(ps, st, ls.len() as int, base, cart.last()) {
                Err(e) => Err(e),
                Ok((st2, l)) => Ok((st2, ls.push(l))),
            },
        }
    }
}

/// Sum of the subtotals of the lines.
pub open spec fn suma(ls: Seq<Linea>) -> int
    decreases ls.len(),
{
    if ls.len() == 0 {
        0
    } else {
        suma(ls.drop_last()) + ls.last().subtotal
    }
}

/// The rows of `order_items` that the lines become, with ids after `base`.
pub open spec fn filas_items(ls: Seq<Linea>, base: int, order_id: i64) -> Seq<OrderItem> {
    Seq::new(
        ls.len(),
        |j: int|
            OrderItem {
                id: (base + j + 1) as i64,
                order_id: order_id,
                product_id: ls[j].product_id,
                quantity: ls[j].quantity,
                subtotal: ls[j].subtotal,
            },
    )
}

/// What an accepted cart leaves behind: new stocks, its lines and its total.
pub struct Plan {
    pub stocks: Vec<i64>,
    pub lineas: Vec<Linea>,
    pub total: i128,
}

/// The first position of a product with an id is what `indice` gives.
pub proof fn lemma_primero_unico(ps: Seq<Product>, id: i32, k: int)
    requires
        es_primero(ps, id, k),
    ensures
        indice(ps, id) == k,
{
    let c = choose|k: int| es_primero(ps, id, k);
    assert(es_primero(ps, id, c));
    if c < k {
        assert(ps[c].id != id);
    } else if k < c {
        assert(ps[k].id != id);
    }
}

proof fn lemma_error_persiste(ps: Seq<Product>, cart: Seq<(i32, i32)>, base: int, i: int)
    requires
        0 <= i <= cart.len(),
        aplicar(ps, cart.take(i), base) is Err,
    ensures
        aplicar(ps, cart, base) == aplicar(ps, cart.take(i), base),
    decreases cart.len() - i,
{
    if i < cart.len() {
        assert(cart.take(i + 1).drop_last() =~= cart.take(i));
        lemma_error_persiste(ps, cart, base, i + 1);
    } else {
        assert(cart.take(i) =~= cart);
    }
}

/// Shape of an accepted cart: one line per pair, one stock per product, and
/// room for the line ids after `base`.
pub proof fn lemma_forma(ps: Seq<Product>, cart: Seq<(i32, i32)>, base: int)
    requires
        base <= i64::MAX,
    ensures
        aplicar(ps, cart, base) matches Ok((st, ls)) ==> {
            &&& st.len() == ps.len()
            &&& ls.len() == cart.len()
            &&& base + ls.len() <= i64::MAX
        },
    decreases cart.len(),
{
    if cart.len() > 0 {
        lemma_forma(ps, cart.drop_last(), base);
    }
}

/// Finds the position of the product with the given id.
pub fn buscar_producto(productos: &Vec<Product>, id: i32) -> (r: Option<usize>)
    ensures
        match r {
            Some(k) => indice(productos@, id) == k,
            None => indice(productos@, id) == -1,
        },
{
    let mut i: usize = 0;
    while i < productos.len()
        invariant
            i <= productos@.len(),
            forall|j: int| 0 <= j < i ==> productos@[j].id != id,
        decreases productos@.len() - i,
    {
        if productos[i].id == id {
            proof {
                lemma_primero_unico(productos@, id, i as int);
            }
            return Some(i);
        }
        i = i + 1;
    }
    assert(!exists|k: int| es_primero(productos@, id, k));
    None
}

/// Checks the cart against the products, in order, without changing them.
/// Line ids would be handed out after `base`.
pub fn planificar(productos: &Vec<Product>, carrito: &Vec<(i32, i32)>, base: i64) -> (r: Result<
    Plan,
    OrderError,
>)
    ensures
        match aplicar(productos@, carrito@, base as int) {
            Ok((st, ls)) => r matches Ok(plan) && plan.stocks@ == st && plan.lineas@ == ls
                && plan.total == suma(ls),
            Err(e) => r == Err::<Plan, OrderError>(e),
        },
{
    let mut stocks: Vec<i64> = Vec::new();
    let mut j: usize = 0;
    while j < productos.len()
        invariant
            j <= productos@.len(),
            stocks@.len() == j,
            forall|k: int| 0 <= k < j ==> stocks@[k] == productos@[k].stock,
        decreases productos@.len() - j,
    {
        stocks.push(productos[j].stock);
        j = j + 1;
    }
    assert(stocks@ =~= stocks_de(productos@));
    assert(carrito@.take(0) =~= Seq::<(i32, i32)>::empty());

    let mut lineas: Vec<Linea> = Vec::new();
    let mut total: i128 = 0;
    let mut i: usize = 0;
    while i < carrito.len()
        invariant
            i <= carrito@.len(),
            stocks@.len() == productos@.len(),
            lineas@.len() == i,
            aplicar(productos@, carrito@.take(i as int), base as int) == Ok::<
                (Seq<i64>, Seq<Linea>),
                OrderError,
            >((stocks@, lineas@)),
            total == suma(lineas@),
            -(i as int) * 0x4000_0000_0000_0000 <= total <= (i as int) * 0x4000_0000_0000_0000,
        decreases carrito@.len() - i,
    {
        let item = carrito[i];
        let pid = item.0;
        let cant = item.1;
        let ghost antes = carrito@.take(i as int);
        proof {
            assert(carrito@.take(i + 1).drop_last() =~= antes);
            assert(carrito@.take(i + 1).last() == item);
        }
        match buscar_producto(productos, pid) {
            None => {
                proof {
                    lemma_error_persiste(productos@, carrito@, base as int, i + 1);
                }
                return Err(OrderError::ProductNotFound(pid));
            },
            Some(k) => {
                let s = stocks[k];
                if s < i32::MIN as i64 || s > i32::MAX as i64 {
                    proof {
                        lemma_error_persiste(productos@, carrito@, base as int, i + 1);
                    }
                    return Err(OrderError::StockOutOfRange(pid, s));
                }
                let s32 = s as i32;
                if s32 < cant {
                    proof {
                        lemma_error_persiste(productos@, carrito@, base as int, i + 1);
                    }
                    return Err(OrderError::InsufficientStock(pid, s32, cant));
                }
                if (base as i128) + (i as i128) >= i64::MAX as i128 {
                    proof {
                        lemma_error_persiste(productos@, carrito@, base as int, i + 1);
                    }
                    return Err(OrderError::RowIdExhausted);
                }
                let precio = productos[k].price;
                assert((precio as int) * (cant as int) <= 0x4000_0000_0000_0000
                    && (precio as int) * (cant as int) >= -0x4000_0000_0000_0000) by (nonlinear_arith)
                    requires
                        i32::MIN <= precio <= i32::MAX,
                        i32::MIN <= cant <= i32::MAX,
                ;
                let subtotal: i64 = (precio as i64) * (cant as i64);
                let linea = Linea { product_id: pid, quantity: cant, subtotal: subtotal };
                let ghost viejas = lineas@;
                stocks[k] = s - (cant as i64);
                lineas.push(linea);
                total = total + (subtotal as i128);
                proof {
                    assert(lineas@.drop_last() =~= viejas);
                }
                i = i + 1;
            },
        }
    }
    assert(carrito@.take(carrito@.len() as int) =~= carrito@);
    Ok(Plan { stocks, lineas, total })
}

/// Writes the new stock column into the products.
pub fn actualizar_stocks(productos: &mut Vec<Product>, stocks: &Vec<i64>)
    requires
        stocks@.len() == old(productos)@.len(),
    ensures
        final(productos)@ == con_stocks(old(productos)@, stocks@),
{
    let ghost orig = productos@;
    let mut k: usize = 0;
    while k < productos.len()
        invariant
            k <= productos@.len(),
            productos@.len() == orig.len(),
            stocks@.len() == orig.len(),
            forall|j: int| 0 <= j < k ==> productos@[j] == con_stocks(orig, stocks@)[j],
            forall|j: int| k <= j < orig.len() ==> productos@[j] == orig[j],
        decreases orig.len() - k,
    {
        productos[k].stock = stocks[k];
        k = k + 1;
    }
    assert(productos@ =~= con_stocks(orig, stocks@));
}

/// Appends the lines as rows of `order_items` of the given order, with the
/// ids that follow `last_item_id`, and moves `last_item_id` past them.
pub fn registrar_lineas(
    items: &mut Vec<OrderItem>,
    last_item_id: &mut i64,
    order_id: i64,
    lineas: &Vec<Linea>,
)
    requires
        *old(last_item_id) + lineas@.len() <= i64::MAX,
    ensures
        final(items)@ == old(items)@ + filas_items(lineas@, *old(last_item_id) as int, order_id),
        *final(last_item_id) == *old(last_item_id) + lineas@.len(),
{
    let ghost orig = items@;
    let ghost base = *last_item_id as int;
    let mut j: usize = 0;
    while j < lineas.len()
        invariant
            j <= lineas@.len(),
            base + lineas@.len() <= i64::MAX,
            *last_item_id == base + j,
            items@ =~= orig + filas_items(lineas@, base, order_id).take(j as int),
        decreases lineas@.len() - j,
    {
        let l = lineas[j];
        *last_item_id = *last_item_id + 1;
        items.push(
            OrderItem {
                id: *last_item_id,
                order_id: order_id,
                product_id: l.product_id,
                quantity: l.quantity,
                subtotal: l.subtotal,
            },
        );
        proof {
            assert(filas_items(lineas@, base, order_id).take(j + 1) =~= filas_items(
                lineas@,
                base,
                order_id,
            ).take(j as int).push(filas_items(lineas@, base, order_id)[j as int]));
        }
        j = j + 1;
    }
    assert(filas_items(lineas@, base, order_id).take(lineas@.len() as int) =~= filas_items(
        lineas@,
        base,
        order_id,
    ));
}

} // verus!
