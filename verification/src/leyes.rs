use vstd::prelude::*;

use crate::consultas::{busqueda, lema_busqueda, orden_visual, profundidad};
use crate::eliminacion::{eliminado, lema_eliminado};
use crate::insercion::{insertado, lema_insertado};
use crate::libro::Libro;
use crate::nodo::{altura_arbol, contenido, es_avl, es_bst, tamano, Nodo};

verus! {

/// Tras insertar un libro cuyo ISBN no estaba, buscar ese ISBN da ese libro (y si
/// ya estaba, da lo mismo que antes); buscar cualquier otro ISBN da lo mismo que
/// antes.
pub proof fn ley_buscar_tras_insertar(t: Option<Box<Nodo>>, libro: Libro, isbn: u32)
    requires
        es_avl(t),
    ensures
        ({
            let r = Some(Box::new(insertado(t, libro)));
            busqueda(r, isbn) == if isbn == libro.isbn && busqueda(t, isbn) is None {
                Some(libro)
            } else {
                busqueda(t, isbn)
            }
        }),
{
    let r = Some(Box::new(insertado(t, libro)));
    lema_insertado(t, libro);
    lema_busqueda(t, isbn);
    lema_busqueda(r, isbn);
}

/// Insertar un libro cuyo ISBN ya está deja el árbol igual.
pub proof fn ley_insertar_repetido(t: Option<Box<Nodo>>, libro: Libro)
    requires
        es_avl(t),
        contenido(t).dom().contains(libro.isbn),
    ensures
        Some(Box::new(insertado(t, libro))) == t,
{
    lema_insertado(t, libro);
}

/// Tras eliminar un ISBN, buscarlo no da nada; buscar cualquier otro ISBN da lo
/// mismo que antes.
pub proof fn ley_buscar_tras_eliminar(t: Option<Box<Nodo>>, eliminado_isbn: u32, isbn: u32)
    requires
        es_avl(t),
    ensures
        busqueda(eliminado(t, eliminado_isbn), isbn) == if isbn == eliminado_isbn {
            None
        } else {
            busqueda(t, isbn)
        },
{
    let r = eliminado(t, eliminado_isbn);
    lema_eliminado(t, eliminado_isbn);
    lema_busqueda(t, isbn);
    lema_busqueda(r, isbn);
}

/// Eliminar un ISBN que no está deja el árbol igual.
pub proof fn ley_eliminar_ausente(t: Option<Box<Nodo>>, isbn: u32)
    requires
        es_avl(t),
        !contenido(t).dom().contains(isbn),
    ensures
        eliminado(t, isbn) == t,
{
    lema_eliminado(t, isbn);
}

/// Insertar un libro nuevo y luego eliminar su ISBN devuelve el mismo contenido.
pub proof fn ley_eliminar_deshace_insertar(t: Option<Box<Nodo>>, libro: Libro)
    requires
        es_avl(t),
        !contenido(t).dom().contains(libro.isbn),
    ensures
        contenido(eliminado(Some(Box::new(insertado(t, libro))), libro.isbn)) == contenido(t),
{
    let r = Some(Box::new(insertado(t, libro)));
    lema_insertado(t, libro);
    lema_eliminado(r, libro.isbn);
    assert(contenido(eliminado(r, libro.isbn)) =~= contenido(t));
}

/// Cada fila del dibujo es un libro del árbol, guardado bajo su ISBN.
pub proof fn lema_filas_en_contenido(t: Option<Box<Nodo>>, nivel: usize)
    requires
        es_bst(t),
    ensures
        forall|i: int|
            0 <= i < orden_visual(t, nivel).len() ==> {
                let l = #[trigger] orden_visual(t, nivel)[i].1;
                &&& contenido(t).dom().contains(l.isbn)
                &&& contenido(t)[l.isbn] == l
            },
    decreases t,
{
    if let Some(n) = t {
        let nv = (nivel + 1) as usize;
        lema_filas_en_contenido(n.izquierdo, nv);
        lema_filas_en_contenido(n.derecho, nv);
        let si = orden_visual(n.izquierdo, nv);
        let sd = orden_visual(n.derecho, nv);
        let ov = orden_visual(t, nivel);
        assert(ov == si + seq![(nivel, n.libro)] + sd);
        assert forall|i: int| 0 <= i < ov.len() implies {
            let l = #[trigger] ov[i].1;
            &&& contenido(t).dom().contains(l.isbn)
            &&& contenido(t)[l.isbn] == l
        } by {
            if i < si.len() {
                let l = si[i].1;
                assert(ov[i] == si[i]);
                assert(contenido(n.izquierdo).dom().contains(l.isbn));
                assert(!contenido(n.derecho).dom().contains(l.isbn));
            } else if i == si.len() {
                assert(ov[i] == (nivel, n.libro));
            } else {
                let j = i - si.len() - 1;
                let l = sd[j].1;
                assert(ov[i] == sd[j]);
                assert(contenido(n.derecho).dom().contains(l.isbn));
            }
        }
    }
}

/// El dibujo de un árbol de búsqueda lista los libros en orden, de menor a mayor
/// ISBN.
pub proof fn ley_impresion_ordenada(t: Option<Box<Nodo>>, nivel: usize)
    requires
        es_bst(t),
    ensures
        forall|i: int, j: int|
            0 <= i < j < orden_visual(t, nivel).len() ==> #[trigger] orden_visual(
                t,
                nivel,
            )[i].1.isbn < #[trigger] orden_visual(t, nivel)[j].1.isbn,
    decreases t,
{
    if let Some(n) = t {
        let nv = (nivel + 1) as usize;
        ley_impresion_ordenada(n.izquierdo, nv);
        ley_impresion_ordenada(n.derecho, nv);
        lema_filas_en_contenido(n.izquierdo, nv);
        lema_filas_en_contenido(n.derecho, nv);
        let si = orden_visual(n.izquierdo, nv);
        let sd = orden_visual(n.derecho, nv);
        let ov = orden_visual(t, nivel);
        assert(ov == si + seq![(nivel, n.libro)] + sd);
        assert forall|i: int, j: int| 0 <= i < j < ov.len() implies #[trigger] ov[i].1.isbn
            < #[trigger] ov[j].1.isbn by {
            if i < si.len() {
                assert(ov[i] == si[i]);
                assert(contenido(n.izquierdo).dom().contains(si[i].1.isbn));
            } else if i > si.len() {
                assert(ov[i] == sd[i - si.len() - 1]);
            }
            if j < si.len() {
                assert(ov[j] == si[j]);
            } else if j > si.len() {
                assert(ov[j] == sd[j - si.len() - 1]);
                assert(contenido(n.derecho).dom().contains(sd[j - si.len() - 1].1.isbn));
            }
        }
    }
}

/// El dibujo tiene una fila por cada nodo del árbol, y en un árbol de búsqueda
/// cada libro guardado aparece en alguna fila.
pub proof fn ley_impresion_completa(t: Option<Box<Nodo>>, nivel: usize)
    ensures
        orden_visual(t, nivel).len() == tamano(t),
        es_bst(t) ==> forall|k: u32| #[trigger]
            contenido(t).dom().contains(k) ==> exists|i: int|
                0 <= i < orden_visual(t, nivel).len() && orden_visual(t, nivel)[i].1
                    == contenido(t)[k],
    decreases t,
{
    if let Some(n) = t {
        let nv = (nivel + 1) as usize;
        ley_impresion_completa(n.izquierdo, nv);
        ley_impresion_completa(n.derecho, nv);
        let si = orden_visual(n.izquierdo, nv);
        let sd = orden_visual(n.derecho, nv);
        let ov = orden_visual(t, nivel);
        assert(ov == si + seq![(nivel, n.libro)] + sd);
        if es_bst(t) {
            assert forall|k: u32| #[trigger] contenido(t).dom().contains(k) implies exists|i: int|
                0 <= i < ov.len() && ov[i].1 == contenido(t)[k] by {
                if k == n.libro.isbn {
                    assert(ov[si.len() as int] == (nivel, n.libro));
                } else if contenido(n.derecho).dom().contains(k) {
                    let j = choose|j: int|
                        0 <= j < sd.len() && sd[j].1 == contenido(n.derecho)[k];
                    assert(ov[si.len() + 1 + j] == sd[j]);
                } else {
                    assert(contenido(n.izquierdo).dom().contains(k));
                    assert(contenido(t)[k] == contenido(n.izquierdo)[k]);
                    let j = choose|j: int|
                        0 <= j < si.len() && si[j].1 == contenido(n.izquierdo)[k];
                    assert(ov[j] == si[j]);
                }
            }
        }
    }
}

/// En un árbol de búsqueda, cada fila del dibujo lleva como profundidad `nivel`
/// más la distancia del libro a la raíz.
pub proof fn ley_impresion_profundidad(t: Option<Box<Nodo>>, nivel: usize)
    requires
        es_bst(t),
        nivel + altura_arbol(t) <= usize::MAX,
    ensures
        forall|i: int|
            0 <= i < orden_visual(t, nivel).len() ==> #[trigger] orden_visual(t, nivel)[i].0
                == nivel + profundidad(t, orden_visual(t, nivel)[i].1.isbn),
    decreases t,
{
    if let Some(n) = t {
        let nv = (nivel + 1) as usize;
        assert(nv == nivel + 1);
        ley_impresion_profundidad(n.izquierdo, nv);
        ley_impresion_profundidad(n.derecho, nv);
        lema_filas_en_contenido(n.izquierdo, nv);
        lema_filas_en_contenido(n.derecho, nv);
        let si = orden_visual(n.izquierdo, nv);
        let sd = orden_visual(n.derecho, nv);
        let ov = orden_visual(t, nivel);
        assert(ov == si + seq![(nivel, n.libro)] + sd);
        assert forall|i: int| 0 <= i < ov.len() implies #[trigger] ov[i].0 == nivel + profundidad(
            t,
            ov[i].1.isbn,
        ) by {
            if i < si.len() {
                assert(ov[i] == si[i]);
                assert(contenido(n.izquierdo).dom().contains(si[i].1.isbn));
            } else if i > si.len() {
                assert(ov[i] == sd[i - si.len() - 1]);
                assert(contenido(n.derecho).dom().contains(sd[i - si.len() - 1].1.isbn));
            } else {
                assert(ov[i] == (nivel, n.libro));
            }
        }
    }
}

/// En un árbol de búsqueda, el número de nodos es el número de ISBN distintos
/// que guarda.
pub proof fn ley_tamano_es_numero_de_libros(t: Option<Box<Nodo>>)
    requires
        es_bst(t),
    ensures
        contenido(t).dom().finite(),
        contenido(t).dom().len() == tamano(t),
    decreases t,
{
    if let Some(n) = t {
        ley_tamano_es_numero_de_libros(n.izquierdo);
        ley_tamano_es_numero_de_libros(n.derecho);
        let di = contenido(n.izquierdo).dom();
        let dd = contenido(n.derecho).dom();
        let u = contenido(n.izquierdo).union_prefer_right(contenido(n.derecho));
        assert(u.dom() =~= di + dd);
        assert(di.disjoint(dd));
        vstd::set_lib::lemma_set_disjoint_lens(di, dd);
        assert(!(di + dd).contains(n.libro.isbn));
        assert(contenido(t).dom() == (di + dd).insert(n.libro.isbn));
    }
}

/// Insertar un libro nuevo suma un nodo; uno repetido no cambia el número.
pub proof fn ley_tamano_tras_insertar(t: Option<Box<Nodo>>, libro: Libro)
    requires
        es_avl(t),
    ensures
        tamano(Some(Box::new(insertado(t, libro)))) == tamano(t) + if contenido(t).dom().contains(
            libro.isbn,
        ) {
            0nat
        } else {
            1nat
        },
{
    let r = Some(Box::new(insertado(t, libro)));
    lema_insertado(t, libro);
    ley_tamano_es_numero_de_libros(t);
    ley_tamano_es_numero_de_libros(r);
}

/// Eliminar un ISBN que está resta un nodo; uno ausente no cambia el número.
pub proof fn ley_tamano_tras_eliminar(t: Option<Box<Nodo>>, isbn: u32)
    requires
        es_avl(t),
    ensures
        tamano(eliminado(t, isbn)) + (if contenido(t).dom().contains(isbn) {
            1nat
        } else {
            0nat
        }) == tamano(t),
{
    let r = eliminado(t, isbn);
    lema_eliminado(t, isbn);
    ley_tamano_es_numero_de_libros(t);
    ley_tamano_es_numero_de_libros(r);
}

} // verus!
