use vstd::prelude::*;

use crate::libro::Libro;

verus! {

/// Un nodo del árbol AVL: un libro, sus dos subárboles y la altura guardada.
pub struct Nodo {
    pub libro: Libro,
    pub izquierdo: Option<Box<Nodo>>,
    pub derecho: Option<Box<Nodo>>,
    pub altura: i32,
}

/// El mayor de dos enteros.
pub open spec fn maximo(a: int, b: int) -> int {
    if a >= b { a } else { b }
}

/// La altura guardada en la raíz de un subárbol (0 si está vacío).
pub open spec fn altura_de(t: Option<Box<Nodo>>) -> int {
    match t {
        None => 0,
        Some(n) => n.altura as int,
    }
}

/// La altura real de un subárbol, calculada sobre su forma.
pub open spec fn altura_arbol(t: Option<Box<Nodo>>) -> nat
    decreases t,
{
    match t {
        None => 0,
        Some(n) => (1 + maximo(altura_arbol(n.izquierdo) as int, altura_arbol(n.derecho) as int)) as nat,
    }
}

/// Número de nodos de un subárbol.
pub open spec fn tamano(t: Option<Box<Nodo>>) -> nat
    decreases t,
{
    match t {
        None => 0,
        Some(n) => 1 + tamano(n.izquierdo) + tamano(n.derecho),
    }
}

/// Los libros de un subárbol, indexados por su ISBN.
pub open spec fn contenido(t: Option<Box<Nodo>>) -> Map<u32, Libro>
    decreases t,
{
    match t {
        None => Map::empty(),
        Some(n) => contenido(n.izquierdo).union_prefer_right(contenido(n.derecho)).insert(
            n.libro.isbn,
            n.libro,
        ),
    }
}

/// Orden de árbol de búsqueda: en cada nodo, los ISBN de la izquierda son menores
/// y los de la derecha mayores que el suyo.
pub open spec fn es_bst(t: Option<Box<Nodo>>) -> bool
    decreases t,
{
    match t {
        None => true,
        Some(n) => {
            &&& es_bst(n.izquierdo)
            &&& es_bst(n.derecho)
            &&& forall|k: u32| #[trigger] contenido(n.izquierdo).dom().contains(k) ==> k < n.libro.isbn
            &&& forall|k: u32| #[trigger] contenido(n.derecho).dom().contains(k) ==> k > n.libro.isbn
        },
    }
}

/// Cada nodo guarda su altura real.
pub open spec fn alturas_ok(t: Option<Box<Nodo>>) -> bool
    decreases t,
{
    match t {
        None => true,
        Some(n) => {
            &&& alturas_ok(n.izquierdo)
            &&& alturas_ok(n.derecho)
            &&& n.altura as int == altura_arbol(t) as int
        },
    }
}

/// En cada nodo, las alturas de los dos subárboles difieren a lo sumo en uno.
pub open spec fn balanceado(t: Option<Box<Nodo>>) -> bool
    decreases t,
{
    match t {
        None => true,
        Some(n) => {
            &&& balanceado(n.izquierdo)
            &&& balanceado(n.derecho)
            &&& -1 <= altura_arbol(n.izquierdo) - altura_arbol(n.derecho) <= 1
        },
    }
}

/// Invariante del árbol AVL: orden de búsqueda, alturas guardadas correctas y balance.
pub open spec fn es_avl(t: Option<Box<Nodo>>) -> bool {
    &&& es_bst(t)
    &&& alturas_ok(t)
    &&& balanceado(t)
}

/// El factor de balance de un nodo según las alturas guardadas.
pub open spec fn balance_de(n: Nodo) -> int {
    altura_de(n.izquierdo) - altura_de(n.derecho)
}

/// El nodo con su altura recalculada a partir de las alturas guardadas en sus hijos.
pub open spec fn con_altura(n: Nodo) -> Nodo {
    Nodo {
        libro: n.libro,
        izquierdo: n.izquierdo,
        derecho: n.derecho,
        altura: (1 + maximo(altura_de(n.izquierdo), altura_de(n.derecho))) as i32,
    }
}

/// Rotación simple a la derecha: el hijo izquierdo `x` pasa a ser la raíz y la
/// antigua raíz `y` queda como su hijo derecho, con el subárbol derecho de `x`
/// como nuevo hijo izquierdo. Ambas alturas se recalculan.
pub open spec fn rotado_derecha(y: Nodo) -> Nodo {
    let x = *y.izquierdo.unwrap();
    let y2 = con_altura(
        Nodo { libro: y.libro, izquierdo: x.derecho, derecho: y.derecho, altura: y.altura },
    );
    con_altura(
        Nodo { libro: x.libro, izquierdo: x.izquierdo, derecho: Some(Box::new(y2)), altura: x.altura },
    )
}

/// Rotación simple a la izquierda, simétrica de `rotado_derecha`.
pub open spec fn rotado_izquierda(x: Nodo) -> Nodo {
    let y = *x.derecho.unwrap();
    let x2 = con_altura(
        Nodo { libro: x.libro, izquierdo: x.izquierdo, derecho: y.izquierdo, altura: x.altura },
    );
    con_altura(
        Nodo { libro: y.libro, izquierdo: Some(Box::new(x2)), derecho: y.derecho, altura: y.altura },
    )
}

impl Nodo {
    /// Una hoja con el libro dado.
    pub fn nuevo(libro: Libro) -> (n: Nodo)
        ensures
            n == (Nodo { libro: libro, izquierdo: None, derecho: None, altura: 1 }),
    {
        Nodo { libro, izquierdo: None, derecho: None, altura: 1 }
    }
}

/// La altura guardada en la raíz del subárbol, o 0 si está vacío.
pub fn obtener_altura(nodo: &Option<Box<Nodo>>) -> (h: i32)
    ensures
        h == altura_de(*nodo),
{
    match nodo {
        None => 0,
        Some(n) => n.altura,
    }
}

/// Recalcula la altura del nodo como uno más la mayor altura de sus hijos.
pub fn actualizar_altura(nodo: &mut Nodo)
    requires
        altura_de(old(nodo).izquierdo) < i32::MAX,
        altura_de(old(nodo).derecho) < i32::MAX,
    ensures
        *final(nodo) == con_altura(*old(nodo)),
{
    let hi = obtener_altura(&nodo.izquierdo);
    let hd = obtener_altura(&nodo.derecho);
    nodo.altura = 1 + if hi >= hd { hi } else { hd };
}

/// Diferencia entre la altura del hijo izquierdo y la del derecho.
pub fn obtener_balance(nodo: &Nodo) -> (b: i32)
    requires
        i32::MIN <= balance_de(*nodo) <= i32::MAX,
    ensures
        b == balance_de(*nodo),
{
    obtener_altura(&nodo.izquierdo) - obtener_altura(&nodo.derecho)
}

/// Rotación simple a la derecha (caso izquierda-izquierda).
pub fn rotar_derecha(y: Box<Nodo>) -> (r: Box<Nodo>)
    requires
        y.izquierdo is Some,
        altura_de(y.izquierdo.unwrap().izquierdo) < i32::MAX,
        altura_de(y.izquierdo.unwrap().derecho) < i32::MAX - 1,
        altura_de(y.derecho) < i32::MAX - 1,
    ensures
        *r == rotado_derecha(*y),
{
    let mut y = y;
    let mut x = y.izquierdo.take().expect("Hijo izquierdo ausente");
    y.izquierdo = x.derecho.take();
    actualizar_altura(&mut *y);
    x.derecho = Some(y);
    actualizar_altura(&mut *x);
    x
}

/// Rotación simple a la izquierda (caso derecha-derecha).
pub fn rotar_izquierda(x: Box<Nodo>) -> (r: Box<Nodo>)
    requires
        x.derecho is Some,
        altura_de(x.derecho.unwrap().derecho) < i32::MAX,
        altura_de(x.derecho.unwrap().izquierdo) < i32::MAX - 1,
        altura_de(x.izquierdo) < i32::MAX - 1,
    ensures
        *r == rotado_izquierda(*x),
{
    let mut x = x;
    let mut y = x.derecho.take().expect("Hijo derecho ausente");
    x.derecho = y.izquierdo.take();
    actualizar_altura(&mut *x);
    y.izquierdo = Some(x);
    actualizar_altura(&mut *y);
    y
}

} // verus!
