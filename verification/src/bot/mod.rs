//! The chat assistant: answers a customer's message, and places an order of
//! one unit when the message names a product.

use vstd::prelude::*;
use crate::db::{pedido_registrado, procesar_pedido_completo, resultado};
use crate::schema::Database;

verus! {

/// Where a customer stands in a conversation.
pub enum ChatState {
    Greeting,
    SelectingProducts,
    ConfirmingOrder,
}

/// What `str::trim` returns for a string: the string without its leading
/// and trailing Unicode white space.
pub uninterp spec fn spec_trim(s: Seq<char>) -> Seq<char>;

/// What `str::to_lowercase` returns for a string: its Unicode lowercase
/// mapping.
pub uninterp spec fn spec_to_lowercase(s: Seq<char>) -> Seq<char>;

/// Calls `str::trim`; the result is named `spec_trim` of the argument.
#[verifier::external_body]
fn recortar<'a>(s: &'a str) -> (r: &'a str)
    ensures
        r@ == spec_trim(s@),
{
    s.trim()
}

/// Calls `str::to_lowercase`; the result is named `spec_to_lowercase` of the
/// argument.
#[verifier::external_body]
fn a_minusculas(s: &str) -> (r: String)
    ensures
        r@ == spec_to_lowercase(s@),
{
    s.to_lowercase()
}

/// The message as it is read: trimmed, then lowercased.
pub open spec fn normalizado(mensaje: Seq<char>) -> Seq<char> {
    spec_to_lowercase(spec_trim(mensaje))
}

/// The message asks for the menu.
pub open spec fn pide_menu(m: Seq<char>) -> bool {
    m == "hola"@ || m == "menu"@
}

/// The product that the message names, if it names one of the three.
pub open spec fn producto_elegido(m: Seq<char>) -> Option<i32> {
    if m == "1"@ {
        Some(1i32)
    } else if m == "2"@ {
        Some(2i32)
    } else if m == "3"@ {
        Some(3i32)
    } else {
        None
    }
}

/// The menu text.
pub open spec fn texto_menu() -> Seq<char> {
    "¡Hola! Bienvenido.\n\n1. Pizza Especial - $15.50\n2. Hamburguesa Max - $12.00\n3. Café Negro - $3.50\n\nResponde con el NÚMERO del producto para añadirlo."@
}

/// The reply to an order that was registered.
pub open spec fn texto_registrado() -> Seq<char> {
    "✅ ¡Pedido registrado! Revisa el Dashboard."@
}

/// The reply to an order that was refused.
pub open spec fn texto_error() -> Seq<char> {
    "❌ Error de stock o base de datos."@
}

/// The reply to a message that is not understood.
pub open spec fn texto_no_entendido() -> Seq<char> {
    "No te entendí. Escribe 'MENU' para ver los productos disponibles."@
}

/// Answers a customer's message. "hola" or "menu" (in any case, with any
/// surrounding white space) get the menu; "1", "2" or "3" place an order of
/// one unit of that product for customer 1 and get whether it was
/// registered; anything else gets a hint. Only an order changes the database.
pub fn responder_mensaje(
    _whatsapp_id: &str,
    mensaje_entrante: &str,
    conn: &mut Database,
    notifier: &tokio::sync::broadcast::Sender<String>,
) -> (r: String)
    ensures
        ({
            let m = normalizado(mensaje_entrante@);
            if pide_menu(m) {
                r@ == texto_menu() && *final(conn) == *old(conn)
            } else if let Some(id) = producto_elegido(m) {
                match resultado(*old(conn), seq![(id, 1i32)]) {
                    Ok((st, ls)) => r@ == texto_registrado() && pedido_registrado(
                        *old(conn),
                        *final(conn),
                        1,
                        "Dirección por definir"@,
                        st,
                        ls,
                    ),
                    Err(_) => r@ == texto_error() && *final(conn) == *old(conn),
                }
            } else {
                r@ == texto_no_entendido() && *final(conn) == *old(conn)
            }
        }),
{
    let mensaje = a_minusculas(recortar(mensaje_entrante));

    if mensaje == String::from_str("hola") || mensaje == String::from_str("menu") {
        return String::from_str(
            "¡Hola! Bienvenido.\n\n1. Pizza Especial - $15.50\n2. Hamburguesa Max - $12.00\n3. Café Negro - $3.50\n\nResponde con el NÚMERO del producto para añadirlo.",
        );
    }
    let prod_id: i32 = if mensaje == String::from_str("1") {
        1
    } else if mensaje == String::from_str("2") {
        2
    } else if mensaje == String::from_str("3") {
        3
    } else {
        return String::from_str(
            "No te entendí. Escribe 'MENU' para ver los productos disponibles.",
        );
    };
    let carrito = vec![(prod_id, 1i32)];
    assert(carrito@ =~= seq![(prod_id, 1i32)]);
    match procesar_pedido_completo(
        conn,
        1,
        carrito,
        notifier,
        "Cliente de WhatsApp",
        "+5491100000000",
        "Dirección por definir",
    ) {
        Ok(_) => String::from_str("✅ ¡Pedido registrado! Revisa el Dashboard."),
        Err(_) => String::from_str("❌ Error de stock o base de datos."),
    }
}

} // verus!
