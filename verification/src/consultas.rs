use vstd::prelude::*;

use crate::leyes::{
    lema_filas_en_contenido, ley_impresion_completa, ley_impresion_ordenada,
    ley_impresion_profundidad,
};
use crate::libro::Libro;
use crate::nodo::{altura_arbol, contenido, es_bst, tamano, Nodo};

verus! {

/// El libro que se encuentra descendiendo desde la raíz: se para en el nodo con
/// ese ISBN, y si no, sigue por la izquierda cuando el ISBN buscado es menor y por
/// la derecha cuando es mayor.
pub open spec fn busqueda(t: Option<Box<Nodo>>, isbn: u32) -> Option<Libro>
    decreases t,
{
    match t {
        None => None,
        Some(n) => if isbn == n.libro.isbn {
            Some(n.libro)
        } else if isbn < n.libro.isbn {
            busqueda(n.izquierdo, isbn)
        } else {
            busqueda(n.derecho, isbn)
        },
    }
}

/// En un árbol de búsqueda, el descenso encuentra exactamente el libro guardado
/// bajo ese ISBN, y nada si no está.
pub proof fn lema_busqueda(t: Option<Box<Nodo>>, isbn: u32)
    requires
        es_bst(t),
    ensures
        busqueda(t, isbn) == (if contenido(t).dom().contains(isbn) {
            Some(contenido(t)[isbn])
        } else {
            None
        }),
    decreases t,
{
    if let Some(n) = t {
        if isbn < n.libro.isbn {
            lema_busqueda(n.izquierdo, isbn);
            assert(!contenido(n.derecho).dom().contains(isbn));
            if contenido(n.izquierdo).dom().contains(isbn) {
                assert(contenido(t)[isbn] == contenido(n.izquierdo)[isbn]);
            }
        } else if isbn > n.libro.isbn {
            lema_busqueda(n.derecho, isbn);
            assert(!contenido(n.izquierdo).dom().contains(isbn));
        }
    }
}

/// Busca el libro con el ISBN dado descendiendo como en un árbol de búsqueda.
/// Devuelve una referencia al libro guardado, sin copiarlo.
pub fn buscar(nodo: &Option<Box<Nodo>>, isbn: u32) -> (r: Option<&Libro>)
    ensures
        r is Some <==> busqueda(*nodo, isbn) is Some,
        r matches Some(l) ==> busqueda(*nodo, isbn) == Some(*l) && l.isbn == isbn,
        es_bst(*nodo) ==> (r is Some <==> contenido(*nodo).dom().contains(isbn)),
        es_bst(*nodo) ==> (r matches Some(l) ==> *l == contenido(*nodo)[isbn]),
    decreases nodo,
{
    proof {
        if es_bst(*nodo) {
            lema_busqueda(*nodo, isbn);
        }
    }
    if let Some(n) = nodo {
        if isbn == n.libro.isbn {
            return Some(&n.libro);
        }
        if isbn < n.libro.isbn {
            return buscar(&n.izquierdo, isbn);
        }
        return buscar(&n.derecho, isbn);
    }
    None
}

/// El libro del nodo más a la derecha (el de mayor ISBN en un árbol de búsqueda).
pub open spec fn extremo_derecho(n: Nodo) -> Libro
    decreases n,
{
    match n.derecho {
        None => n.libro,
        Some(d) => extremo_derecho(*d),
    }
}

/// El extremo derecho de un árbol de búsqueda es su libro de mayor ISBN.
pub proof fn lema_extremo_derecho(n: Nodo)
    requires
        es_bst(Some(Box::new(n))),
    ensures
        contenido(Some(Box::new(n))).dom().contains(extremo_derecho(n).isbn),
        contenido(Some(Box::new(n)))[extremo_derecho(n).isbn] == extremo_derecho(n),
        forall|k: u32| #[trigger]
            contenido(Some(Box::new(n))).dom().contains(k) ==> k <= extremo_derecho(n).isbn,
    decreases n,
{
    if let Some(d) = n.derecho {
        lema_extremo_derecho(*d);
        assert(Some(Box::new(*d)) == n.derecho);
        let e = extremo_derecho(*d);
        assert(contenido(n.derecho).dom().contains(e.isbn));
        assert(e.isbn > n.libro.isbn);
        assert(!contenido(n.izquierdo).dom().contains(e.isbn));
        let u = contenido(n.izquierdo).union_prefer_right(contenido(n.derecho));
        assert(u[e.isbn] == contenido(n.derecho)[e.isbn]);
        assert(contenido(n.derecho)[e.isbn] == e);
        assert(contenido(Some(Box::new(n))) == u.insert(n.libro.isbn, n.libro));
        assert(extremo_derecho(n) == e);
        assert(contenido(Some(Box::new(n)))[e.isbn] == e);
        assert forall|k: u32| #[trigger]
            contenido(Some(Box::new(n))).dom().contains(k) implies k <= e.isbn by {
            if contenido(n.izquierdo).dom().contains(k) {
            }
        }
    } else {
        assert(extremo_derecho(n) == n.libro);
        assert(contenido(Some(Box::new(n)))[n.libro.isbn] == n.libro);
        assert forall|k: u32| #[trigger]
            contenido(Some(Box::new(n))).dom().contains(k) implies k <= n.libro.isbn by {
            assert(!contenido(n.derecho).dom().contains(k));
            if contenido(n.izquierdo).dom().contains(k) {
            }
        }
    }
}

/// La altura de un árbol no supera su número de nodos.
pub proof fn lema_altura_menor_tamano(t: Option<Box<Nodo>>)
    ensures
        altura_arbol(t) <= tamano(t),
    decreases t,
{
    if let Some(n) = t {
        lema_altura_menor_tamano(n.izquierdo);
        lema_altura_menor_tamano(n.derecho);
    }
}

/// Estadísticas de un árbol: altura, número de nodos y libro de mayor ISBN.
pub struct EstadisticasArbol<'a> {
    pub altura_total: usize,
    pub total_nodos: usize,
    pub libro_isbn_mayor: Option<&'a Libro>,
}

/// Calcula la altura y el número de nodos recorriendo el árbol, y toma como libro
/// de mayor ISBN el del extremo derecho.
pub fn obtener_estadisticas<'a>(nodo: &'a Option<Box<Nodo>>) -> (e: EstadisticasArbol<'a>)
    requires
        tamano(*nodo) <= usize::MAX,
    ensures
        e.altura_total == altura_arbol(*nodo),
        e.total_nodos == tamano(*nodo),
        e.libro_isbn_mayor is Some <==> nodo is Some,
        e.libro_isbn_mayor matches Some(l) ==> *l == extremo_derecho(*nodo.unwrap()),
        es_bst(*nodo) ==> (e.libro_isbn_mayor matches Some(l) ==> {
            &&& contenido(*nodo).dom().contains(l.isbn)
            &&& contenido(*nodo)[l.isbn] == *l
            &&& forall|k: u32| #[trigger] contenido(*nodo).dom().contains(k) ==> k <= l.isbn
        }),
    decreases nodo,
{
    proof {
        lema_altura_menor_tamano(*nodo);
    }
    match nodo {
        None => EstadisticasArbol { altura_total: 0, total_nodos: 0, libro_isbn_mayor: None },
        Some(n) => {
            let izq = obtener_estadisticas(&n.izquierdo);
            let der = obtener_estadisticas(&n.derecho);
            let altura_total = 1 + if izq.altura_total >= der.altura_total {
                izq.altura_total
            } else {
                der.altura_total
            };
            let total_nodos = 1 + izq.total_nodos + der.total_nodos;
            let libro_isbn_mayor = match der.libro_isbn_mayor {
                Some(libro_der) => Some(libro_der),
                None => Some(&n.libro),
            };
            proof {
                if es_bst(*nodo) {
                    lema_extremo_derecho(**n);
                    assert(Some(Box::new(**n)) == *nodo);
                }
            }
            EstadisticasArbol { altura_total, total_nodos, libro_isbn_mayor }
        },
    }
}

/// Distancia desde la raíz hasta el nodo con ese ISBN, bajando como en un árbol
/// de búsqueda.
pub open spec fn profundidad(t: Option<Box<Nodo>>, isbn: u32) -> nat
    decreases t,
{
    match t {
        None => 0,
        Some(n) => if isbn == n.libro.isbn {
            0
        } else if isbn < n.libro.isbn {
            1 + profundidad(n.izquierdo, isbn)
        } else {
            1 + profundidad(n.derecho, isbn)
        },
    }
}

/// Las filas del dibujo del árbol en orden (in-order): primero el subárbol
/// izquierdo, luego el nodo y luego el derecho, cada libro con su profundidad a partir de
/// `nivel`.
pub open spec fn orden_visual(t: Option<Box<Nodo>>, nivel: usize) -> Seq<(usize, Libro)>
    decreases t,
{
    match t {
        None => Seq::empty(),
        Some(n) => orden_visual(n.izquierdo, (nivel + 1) as usize) + seq![(nivel, n.libro)]
            + orden_visual(n.derecho, (nivel + 1) as usize),
    }
}

/// Añade a `salida` las filas del dibujo del subárbol.
fn recorrer(nodo: &Option<Box<Nodo>>, nivel: usize, salida: &mut Vec<(usize, Libro)>)
    requires
        nivel + altura_arbol(*nodo) <= usize::MAX,
    ensures
        final(salida)@ == old(salida)@ + orden_visual(*nodo, nivel),
    decreases nodo,
{
    if let Some(n) = nodo {
        recorrer(&n.izquierdo, nivel + 1, salida);
        salida.push((nivel, n.libro.clone()));
        recorrer(&n.derecho, nivel + 1, salida);
        proof {
            assert(salida@ =~= old(salida)@ + orden_visual(*nodo, nivel));
        }
    }
}

/// Las filas con que se dibuja el árbol en orden (izquierda, raíz, derecha), es
/// decir de menor a mayor ISBN, cada una con la profundidad del libro a partir de
/// `nivel`.
pub fn lineas_impresion(nodo: &Option<Box<Nodo>>, nivel: usize) -> (filas: Vec<(usize, Libro)>)
    requires
        nivel + altura_arbol(*nodo) <= usize::MAX,
    ensures
        filas@ == orden_visual(*nodo, nivel),
        filas@.len() == tamano(*nodo),
        es_bst(*nodo) ==> forall|k: u32| #[trigger]
            contenido(*nodo).dom().contains(k) ==> exists|i: int|
                0 <= i < filas@.len() && filas@[i].1 == contenido(*nodo)[k],
        es_bst(*nodo) ==> forall|i: int|
            0 <= i < filas@.len() ==> {
                &&& contenido(*nodo).dom().contains(#[trigger] filas@[i].1.isbn)
                &&& contenido(*nodo)[filas@[i].1.isbn] == filas@[i].1
                &&& filas@[i].0 == nivel + profundidad(*nodo, filas@[i].1.isbn)
            },
        es_bst(*nodo) ==> forall|i: int, j: int|
            0 <= i < j < filas@.len() ==> #[trigger] filas@[i].1.isbn < #[trigger] filas@[j].1.isbn,
{
    let mut filas = Vec::new();
    recorrer(nodo, nivel, &mut filas);
    proof {
        assert(filas@ =~= orden_visual(*nodo, nivel));
        ley_impresion_completa(*nodo, nivel);
        if es_bst(*nodo) {
            lema_filas_en_contenido(*nodo, nivel);
            ley_impresion_profundidad(*nodo, nivel);
            ley_impresion_ordenada(*nodo, nivel);
        }
    }
    filas
}

} // verus!
