use vstd::prelude::*;

use crate::insercion::{con_derecho, con_izquierdo, lema_caso_di, lema_caso_id};
use crate::libro::Libro;
use crate::nodo::{
    actualizar_altura, altura_arbol, alturas_ok, balance_de, balanceado, con_altura, contenido,
    es_avl, es_bst, obtener_balance, rotado_derecha, rotado_izquierda, rotar_derecha,
    rotar_izquierda, tamano, Nodo,
};
use crate::propiedades::{
    lema_altura_acotada, lema_altura_guardada, lema_rotado_derecha, lema_rotado_izquierda,
};

verus! {

/// El libro del nodo más a la izquierda (el de menor ISBN en un árbol de búsqueda).
pub open spec fn extremo_izquierdo(n: Nodo) -> Libro
    decreases n,
{
    match n.izquierdo {
        None => n.libro,
        Some(l) => extremo_izquierdo(*l),
    }
}

/// Rebalanceo tras eliminar bajo el nodo `m`: los cuatro casos de rotación del
/// AVL, decididos por el factor de balance del nodo y el del hijo más alto.
pub open spec fn rebalanceo_eliminacion(m: Nodo) -> Nodo {
    let bal = balance_de(m);
    if bal > 1 && balance_de(*m.izquierdo.unwrap()) >= 0 {
        rotado_derecha(m)
    } else if bal > 1 && balance_de(*m.izquierdo.unwrap()) < 0 {
        rotado_derecha(con_izquierdo(m, Some(Box::new(rotado_izquierda(*m.izquierdo.unwrap())))))
    } else if bal < -1 && balance_de(*m.derecho.unwrap()) <= 0 {
        rotado_izquierda(m)
    } else if bal < -1 && balance_de(*m.derecho.unwrap()) > 0 {
        rotado_izquierda(con_derecho(m, Some(Box::new(rotado_derecha(*m.derecho.unwrap())))))
    } else {
        m
    }
}

/// El árbol que resulta de eliminar `isbn` de `t`. Un nodo con un solo hijo se
/// sustituye por ese hijo; uno con dos hijos toma el libro de su sucesor en orden
/// (el extremo izquierdo del subárbol derecho), que se elimina después de ese
/// subárbol. En cada nodo del camino se recalcula la altura y se rebalancea.
pub open spec fn eliminado(t: Option<Box<Nodo>>, isbn: u32) -> Option<Box<Nodo>>
    decreases t,
{
    match t {
        None => None,
        Some(n) => if isbn < n.libro.isbn {
            Some(
                Box::new(
                    rebalanceo_eliminacion(
                        con_altura(con_izquierdo(*n, eliminado(n.izquierdo, isbn))),
                    ),
                ),
            )
        } else if isbn > n.libro.isbn {
            Some(
                Box::new(
                    rebalanceo_eliminacion(con_altura(con_derecho(*n, eliminado(n.derecho, isbn)))),
                ),
            )
        } else if n.izquierdo is None {
            n.derecho
        } else if n.derecho is None {
            n.izquierdo
        } else {
            let s = extremo_izquierdo(*n.derecho.unwrap());
            Some(
                Box::new(
                    rebalanceo_eliminacion(
                        con_altura(
                            Nodo {
                                libro: s,
                                izquierdo: n.izquierdo,
                                derecho: eliminado(n.derecho, s.isbn),
                                altura: n.altura,
                            },
                        ),
                    ),
                ),
            )
        },
    }
}

/// Lo que cumple `r`, resultado de eliminar `isbn` de `t`: es un AVL, guarda el
/// contenido de `t` sin ese ISBN, su altura baja a lo sumo en uno, y si el ISBN
/// no estaba el árbol no cambia.
pub open spec fn eliminacion_correcta(t: Option<Box<Nodo>>, isbn: u32, r: Option<Box<Nodo>>) -> bool {
    &&& es_avl(r)
    &&& contenido(r) == contenido(t).remove(isbn)
    &&& altura_arbol(t) <= altura_arbol(r) + 1
    &&& altura_arbol(r) <= altura_arbol(t)
    &&& !contenido(t).dom().contains(isbn) ==> r == t
}

/// El extremo izquierdo de un árbol de búsqueda es su libro de menor ISBN.
pub proof fn lema_extremo_izquierdo(n: Nodo)
    requires
        es_bst(Some(Box::new(n))),
    ensures
        contenido(Some(Box::new(n))).dom().contains(extremo_izquierdo(n).isbn),
        contenido(Some(Box::new(n)))[extremo_izquierdo(n).isbn] == extremo_izquierdo(n),
        forall|k: u32| #[trigger]
            contenido(Some(Box::new(n))).dom().contains(k) ==> extremo_izquierdo(n).isbn <= k,
    decreases n,
{
    if let Some(l) = n.izquierdo {
        lema_extremo_izquierdo(*l);
        assert(Some(Box::new(*l)) == n.izquierdo);
        let e = extremo_izquierdo(*l);
        assert(contenido(n.izquierdo).dom().contains(e.isbn));
        assert(e.isbn < n.libro.isbn);
        assert(!contenido(n.derecho).dom().contains(e.isbn));
        assert forall|k: u32| #[trigger]
            contenido(Some(Box::new(n))).dom().contains(k) implies e.isbn <= k by {
            if contenido(n.derecho).dom().contains(k) {
            }
        }
        let u = contenido(n.izquierdo).union_prefer_right(contenido(n.derecho));
        assert(u[e.isbn] == contenido(n.izquierdo)[e.isbn]);
        assert(contenido(n.izquierdo)[e.isbn] == e);
        assert(contenido(Some(Box::new(n))) == u.insert(n.libro.isbn, n.libro));
        assert(extremo_izquierdo(n) == e);
        assert(contenido(Some(Box::new(n)))[e.isbn] == e);
    } else {
        assert(extremo_izquierdo(n) == n.libro);
        assert(contenido(Some(Box::new(n)))[n.libro.isbn] == n.libro);
        assert forall|k: u32| #[trigger]
            contenido(Some(Box::new(n))).dom().contains(k) implies n.libro.isbn <= k by {
            assert(!contenido(n.izquierdo).dom().contains(k));
            if contenido(n.derecho).dom().contains(k) {
            }
        }
    }
}

/// Rebalanceo de un nodo cuyo hijo izquierdo es dos niveles más alto que el derecho:
/// queda un AVL con el mismo contenido y la altura del hijo derecho más dos o tres.
proof fn lema_rebalanceo_izq(m: Nodo)
    requires
        m.izquierdo is Some,
        es_bst(Some(Box::new(m))),
        es_avl(m.izquierdo),
        es_avl(m.derecho),
        altura_arbol(m.izquierdo) == altura_arbol(m.derecho) + 2,
    ensures
        ({
            let r = Some(Box::new(rebalanceo_eliminacion(m)));
            &&& es_avl(r)
            &&& contenido(r) == contenido(Some(Box::new(m)))
            &&& altura_arbol(m.derecho) + 2 <= altura_arbol(r) <= altura_arbol(m.derecho) + 3
        }),
{
    let s = *m.izquierdo.unwrap();
    lema_altura_acotada(m.izquierdo);
    lema_altura_acotada(m.derecho);
    lema_altura_guardada(m.izquierdo);
    lema_altura_guardada(m.derecho);
    assert(es_avl(s.izquierdo) && es_avl(s.derecho));
    lema_altura_guardada(s.izquierdo);
    lema_altura_guardada(s.derecho);
    if balance_de(s) >= 0 {
        assert(rebalanceo_eliminacion(m) == rotado_derecha(m));
        lema_rotado_derecha(m);
    } else {
        lema_caso_id(m);
    }
}

/// Rebalanceo de un nodo cuyo hijo derecho es dos niveles más alto que el izquierdo:
/// queda un AVL con el mismo contenido y la altura del hijo izquierdo más dos o tres.
proof fn lema_rebalanceo_der(m: Nodo)
    requires
        m.derecho is Some,
        es_bst(Some(Box::new(m))),
        es_avl(m.izquierdo),
        es_avl(m.derecho),
        altura_arbol(m.derecho) == altura_arbol(m.izquierdo) + 2,
    ensures
        ({
            let r = Some(Box::new(rebalanceo_eliminacion(m)));
            &&& es_avl(r)
            &&& contenido(r) == contenido(Some(Box::new(m)))
            &&& altura_arbol(m.izquierdo) + 2 <= altura_arbol(r) <= altura_arbol(m.izquierdo) + 3
        }),
{
    let s = *m.derecho.unwrap();
    lema_altura_acotada(m.izquierdo);
    lema_altura_acotada(m.derecho);
    lema_altura_guardada(m.izquierdo);
    lema_altura_guardada(m.derecho);
    assert(es_avl(s.izquierdo) && es_avl(s.derecho));
    lema_altura_guardada(s.izquierdo);
    lema_altura_guardada(s.derecho);
    if balance_de(s) <= 0 {
        assert(rebalanceo_eliminacion(m) == rotado_izquierda(m));
        lema_rotado_izquierda(m);
    } else {
        lema_caso_di(m);
    }
}

/// Paso de la eliminación por la izquierda.
proof fn lema_eliminacion_izq(n: Nodo, isbn: u32)
    requires
        es_avl(Some(Box::new(n))),
        isbn < n.libro.isbn,
        eliminacion_correcta(n.izquierdo, isbn, eliminado(n.izquierdo, isbn)),
    ensures
        eliminacion_correcta(Some(Box::new(n)), isbn, eliminado(Some(Box::new(n)), isbn)),
{
    let t = Some(Box::new(n));
    let l = n.izquierdo;
    let d = n.derecho;
    let l2 = eliminado(l, isbn);
    let m = con_altura(con_izquierdo(n, l2));
    let tm = Some(Box::new(m));
    assert(eliminado(t, isbn) == Some(Box::new(rebalanceo_eliminacion(m))));
    assert(es_avl(l) && es_avl(d));
    lema_altura_acotada(l);
    lema_altura_acotada(d);
    lema_altura_acotada(l2);
    lema_altura_guardada(l2);
    lema_altura_guardada(d);
    lema_altura_guardada(t);
    assert(!contenido(d).dom().contains(isbn));
    assert forall|k: u32| #[trigger] contenido(l2).dom().contains(k) implies k < n.libro.isbn by {
        assert(contenido(l).dom().contains(k));
    }
    assert(es_bst(tm));
    assert(alturas_ok(tm));
    assert(contenido(t).dom().contains(isbn) == contenido(l).dom().contains(isbn));
    assert(contenido(tm) =~= contenido(t).remove(isbn));
    if altura_arbol(d) <= altura_arbol(l2) + 1 {
        assert(rebalanceo_eliminacion(m) == m);
        assert(balanceado(tm));
        if !contenido(t).dom().contains(isbn) {
            assert(l2 == l);
            assert(m == n);
        }
    } else {
        lema_rebalanceo_der(m);
    }
}

/// Paso de la eliminación por la derecha.
proof fn lema_eliminacion_der(n: Nodo, isbn: u32)
    requires
        es_avl(Some(Box::new(n))),
        isbn > n.libro.isbn,
        eliminacion_correcta(n.derecho, isbn, eliminado(n.derecho, isbn)),
    ensures
        eliminacion_correcta(Some(Box::new(n)), isbn, eliminado(Some(Box::new(n)), isbn)),
{
    let t = Some(Box::new(n));
    let l = n.izquierdo;
    let d = n.derecho;
    let d2 = eliminado(d, isbn);
    let m = con_altura(con_derecho(n, d2));
    let tm = Some(Box::new(m));
    assert(eliminado(t, isbn) == Some(Box::new(rebalanceo_eliminacion(m))));
    assert(es_avl(l) && es_avl(d));
    lema_altura_acotada(l);
    lema_altura_acotada(d);
    lema_altura_acotada(d2);
    lema_altura_guardada(d2);
    lema_altura_guardada(l);
    lema_altura_guardada(t);
    assert(!contenido(l).dom().contains(isbn));
    assert forall|k: u32| #[trigger] contenido(d2).dom().contains(k) implies k > n.libro.isbn by {
        assert(contenido(d).dom().contains(k));
    }
    assert(es_bst(tm));
    assert(alturas_ok(tm));
    assert(contenido(t).dom().contains(isbn) == contenido(d).dom().contains(isbn));
    assert(contenido(tm) =~= contenido(t).remove(isbn));
    if altura_arbol(l) <= altura_arbol(d2) + 1 {
        assert(rebalanceo_eliminacion(m) == m);
        assert(balanceado(tm));
        if !contenido(t).dom().contains(isbn) {
            assert(d2 == d);
            assert(m == n);
        }
    } else {
        lema_rebalanceo_izq(m);
    }
}

/// Paso de la eliminación de un nodo con dos hijos: toma el libro del sucesor en
/// orden y lo elimina del subárbol derecho.
proof fn lema_eliminacion_sucesor(n: Nodo)
    requires
        es_avl(Some(Box::new(n))),
        n.izquierdo is Some,
        n.derecho is Some,
        eliminacion_correcta(
            n.derecho,
            extremo_izquierdo(*n.derecho.unwrap()).isbn,
            eliminado(n.derecho, extremo_izquierdo(*n.derecho.unwrap()).isbn),
        ),
    ensures
        eliminacion_correcta(
            Some(Box::new(n)),
            n.libro.isbn,
            eliminado(Some(Box::new(n)), n.libro.isbn),
        ),
{
    let t = Some(Box::new(n));
    let l = n.izquierdo;
    let d = n.derecho;
    let s = extremo_izquierdo(*d.unwrap());
    let d2 = eliminado(d, s.isbn);
    let m = con_altura(Nodo { libro: s, izquierdo: l, derecho: d2, altura: n.altura });
    let tm = Some(Box::new(m));
    assert(eliminado(t, n.libro.isbn) == Some(Box::new(rebalanceo_eliminacion(m))));
    assert(es_avl(l) && es_avl(d));
    assert(Some(Box::new(*d.unwrap())) == d);
    lema_extremo_izquierdo(*d.unwrap());
    lema_altura_acotada(l);
    lema_altura_acotada(d);
    lema_altura_acotada(d2);
    lema_altura_guardada(d2);
    lema_altura_guardada(l);
    assert(contenido(d).dom().contains(s.isbn));
    assert(s.isbn > n.libro.isbn);
    assert forall|k: u32| #[trigger] contenido(l).dom().contains(k) implies k < s.isbn by {
    }
    assert forall|k: u32| #[trigger] contenido(d2).dom().contains(k) implies k > s.isbn by {
        assert(contenido(d).dom().contains(k));
    }
    assert(es_bst(tm));
    assert(alturas_ok(tm));
    assert(!contenido(l).dom().contains(n.libro.isbn));
    assert(!contenido(d).dom().contains(n.libro.isbn));
    assert(!contenido(l).dom().contains(s.isbn));
    assert(contenido(tm) =~= contenido(t).remove(n.libro.isbn));
    if altura_arbol(l) <= altura_arbol(d2) + 1 {
        assert(rebalanceo_eliminacion(m) == m);
        assert(balanceado(tm));
    } else {
        lema_rebalanceo_izq(m);
    }
}

/// Eliminar de un AVL da un AVL sin ese ISBN, cuya altura baja a lo sumo en uno;
/// si el ISBN no estaba, el árbol no cambia.
pub proof fn lema_eliminado(t: Option<Box<Nodo>>, isbn: u32)
    requires
        es_avl(t),
    ensures
        eliminacion_correcta(t, isbn, eliminado(t, isbn)),
    decreases t,
{
    match t {
        None => {
            assert(contenido(t) =~= contenido(t).remove(isbn));
        },
        Some(n) => {
            assert(Some(Box::new(*n)) == t);
            assert(es_avl(n.izquierdo) && es_avl(n.derecho));
            if isbn < n.libro.isbn {
                lema_eliminado(n.izquierdo, isbn);
                lema_eliminacion_izq(*n, isbn);
            } else if isbn > n.libro.isbn {
                lema_eliminado(n.derecho, isbn);
                lema_eliminacion_der(*n, isbn);
            } else if n.izquierdo is None {
                assert(!contenido(n.derecho).dom().contains(isbn));
                assert(contenido(n.derecho) =~= contenido(t).remove(isbn));
            } else if n.derecho is None {
                assert(!contenido(n.izquierdo).dom().contains(isbn));
                assert(contenido(n.derecho) == Map::<u32, Libro>::empty());
                assert(contenido(n.izquierdo) =~= contenido(t).remove(isbn));
            } else {
                let s = extremo_izquierdo(*n.derecho.unwrap());
                lema_eliminado(n.derecho, s.isbn);
                lema_eliminacion_sucesor(*n);
            }
        },
    }
}

/// Recalcula la altura del nodo tras una eliminación en uno de sus hijos y aplica
/// la rotación que corresponda.
fn rebalancear_eliminacion(nodo: Box<Nodo>) -> (r: Box<Nodo>)
    requires
        es_avl(nodo.izquierdo),
        es_avl(nodo.derecho),
        -2 <= altura_arbol(nodo.izquierdo) - altura_arbol(nodo.derecho) <= 2,
    ensures
        *r == rebalanceo_eliminacion(con_altura(*nodo)),
{
    let mut nodo = nodo;
    proof {
        lema_altura_acotada(nodo.izquierdo);
        lema_altura_acotada(nodo.derecho);
        lema_altura_guardada(nodo.izquierdo);
        lema_altura_guardada(nodo.derecho);
        if nodo.izquierdo is Some {
            let s = *nodo.izquierdo.unwrap();
            assert(es_avl(s.izquierdo) && es_avl(s.derecho));
            lema_altura_acotada(s.izquierdo);
            lema_altura_acotada(s.derecho);
            lema_altura_guardada(s.izquierdo);
            lema_altura_guardada(s.derecho);
        }
        if nodo.derecho is Some {
            let s = *nodo.derecho.unwrap();
            assert(es_avl(s.izquierdo) && es_avl(s.derecho));
            lema_altura_acotada(s.izquierdo);
            lema_altura_acotada(s.derecho);
            lema_altura_guardada(s.izquierdo);
            lema_altura_guardada(s.derecho);
        }
    }
    actualizar_altura(&mut *nodo);
    let balance = obtener_balance(&*nodo);
    if balance > 1 && obtener_balance(nodo.izquierdo.as_ref().unwrap()) >= 0 {
        return rotar_derecha(nodo);
    }
    if balance > 1 && obtener_balance(nodo.izquierdo.as_ref().unwrap()) < 0 {
        let hijo_izq = nodo.izquierdo.take().unwrap();
        proof {
            let d = *hijo_izq.derecho.unwrap();
            assert(es_avl(d.izquierdo) && es_avl(d.derecho));
            lema_altura_acotada(d.izquierdo);
            lema_altura_acotada(d.derecho);
            lema_altura_guardada(d.izquierdo);
            lema_altura_guardada(d.derecho);
        }
        nodo.izquierdo = Some(rotar_izquierda(hijo_izq));
        return rotar_derecha(nodo);
    }
    if balance < -1 && obtener_balance(nodo.derecho.as_ref().unwrap()) <= 0 {
        return rotar_izquierda(nodo);
    }
    if balance < -1 && obtener_balance(nodo.derecho.as_ref().unwrap()) > 0 {
        let hijo_der = nodo.derecho.take().unwrap();
        proof {
            let d = *hijo_der.izquierdo.unwrap();
            assert(es_avl(d.izquierdo) && es_avl(d.derecho));
            lema_altura_acotada(d.izquierdo);
            lema_altura_acotada(d.derecho);
            lema_altura_guardada(d.izquierdo);
            lema_altura_guardada(d.derecho);
        }
        nodo.derecho = Some(rotar_derecha(hijo_der));
        return rotar_izquierda(nodo);
    }
    nodo
}

/// Elimina el libro con el ISBN dado y devuelve la nueva raíz del subárbol (None si
/// queda vacío). Si el ISBN no está, el árbol se devuelve sin cambios.
pub fn eliminar(nodo: Option<Box<Nodo>>, isbn: u32) -> (r: Option<Box<Nodo>>)
    requires
        es_avl(nodo),
    ensures
        r == eliminado(nodo, isbn),
        es_avl(r),
        contenido(r) == contenido(nodo).remove(isbn),
        altura_arbol(nodo) <= altura_arbol(r) + 1,
        altura_arbol(r) <= altura_arbol(nodo),
        !contenido(nodo).dom().contains(isbn) ==> r == nodo,
    decreases nodo,
{
    let ghost arbol = nodo;
    proof {
        lema_eliminado(arbol, isbn);
    }
    let mut nodo = match nodo {
        None => {
            return None;
        },
        Some(n) => n,
    };
    proof {
        assert(es_avl(nodo.izquierdo) && es_avl(nodo.derecho));
    }
    if isbn < nodo.libro.isbn {
        nodo.izquierdo = eliminar(nodo.izquierdo.take(), isbn);
    } else if isbn > nodo.libro.isbn {
        nodo.derecho = eliminar(nodo.derecho.take(), isbn);
    } else {
        if nodo.izquierdo.is_none() {
            return nodo.derecho;
        } else if nodo.derecho.is_none() {
            return nodo.izquierdo;
        }
        let ghost derecho0 = nodo.derecho;
        // Sucesor en orden: el extremo izquierdo del subárbol derecho.
        let isbn_sucesor = {
            let mut sucesor: &Box<Nodo> = nodo.derecho.as_ref().unwrap();
            loop
                invariant
                    extremo_izquierdo(**sucesor) == extremo_izquierdo(*derecho0.unwrap()),
                ensures
                    sucesor.libro == extremo_izquierdo(*derecho0.unwrap()),
                decreases tamano(Some(*sucesor)),
            {
                match &sucesor.izquierdo {
                    Some(izq) => {
                        sucesor = izq;
                    },
                    None => {
                        break ;
                    },
                }
            }
            let datos_sucesor = sucesor.libro.clone();
            nodo.libro = datos_sucesor;
            nodo.libro.isbn
        };
        nodo.derecho = eliminar(nodo.derecho.take(), isbn_sucesor);
    }
    Some(rebalancear_eliminacion(nodo))
}

} // verus!
