use vstd::prelude::*;

use crate::libro::Libro;
use crate::nodo::{
    actualizar_altura, altura_arbol, alturas_ok, balance_de, balanceado, con_altura,
    contenido, es_avl, es_bst, obtener_balance, rotado_derecha, rotado_izquierda, rotar_derecha,
    rotar_izquierda, Nodo,
};
use crate::propiedades::{
    lema_altura_acotada, lema_altura_guardada, lema_rotado_derecha, lema_rotado_izquierda,
};

verus! {

/// Una hoja con el libro dado.
pub open spec fn hoja(libro: Libro) -> Nodo {
    Nodo { libro: libro, izquierdo: None, derecho: None, altura: 1 }
}

/// El nodo con otro hijo izquierdo.
pub open spec fn con_izquierdo(n: Nodo, t: Option<Box<Nodo>>) -> Nodo {
    Nodo { libro: n.libro, izquierdo: t, derecho: n.derecho, altura: n.altura }
}

/// El nodo con otro hijo derecho.
pub open spec fn con_derecho(n: Nodo, t: Option<Box<Nodo>>) -> Nodo {
    Nodo { libro: n.libro, izquierdo: n.izquierdo, derecho: t, altura: n.altura }
}

/// Rebalanceo tras insertar `isbn` bajo el nodo `m`: los cuatro casos de rotación
/// del AVL, decididos por el factor de balance y por el lado del hijo en que
/// quedó el ISBN insertado.
pub open spec fn rebalanceo_insercion(m: Nodo, isbn: u32) -> Nodo {
    let bal = balance_de(m);
    if bal > 1 && isbn < m.izquierdo.unwrap().libro.isbn {
        rotado_derecha(m)
    } else if bal < -1 && isbn > m.derecho.unwrap().libro.isbn {
        rotado_izquierda(m)
    } else if bal > 1 && isbn > m.izquierdo.unwrap().libro.isbn {
        rotado_derecha(con_izquierdo(m, Some(Box::new(rotado_izquierda(*m.izquierdo.unwrap())))))
    } else if bal < -1 && isbn < m.derecho.unwrap().libro.isbn {
        rotado_izquierda(con_derecho(m, Some(Box::new(rotado_derecha(*m.derecho.unwrap())))))
    } else {
        m
    }
}

/// El árbol que resulta de insertar `libro` en `t`: se desciende como en un árbol
/// de búsqueda, se recalcula la altura y se rebalancea en cada nodo del camino.
/// Si el ISBN ya estaba, el árbol no cambia.
pub open spec fn insertado(t: Option<Box<Nodo>>, libro: Libro) -> Nodo
    decreases t,
{
    match t {
        None => hoja(libro),
        Some(n) => if libro.isbn < n.libro.isbn {
            rebalanceo_insercion(
                con_altura(con_izquierdo(*n, Some(Box::new(insertado(n.izquierdo, libro))))),
                libro.isbn,
            )
        } else if libro.isbn > n.libro.isbn {
            rebalanceo_insercion(
                con_altura(con_derecho(*n, Some(Box::new(insertado(n.derecho, libro))))),
                libro.isbn,
            )
        } else {
            *n
        },
    }
}

/// El nodo `s` creció hacia el lado en que quedó `isbn`: ese lado es el más alto.
pub open spec fn crecio_hacia(s: Nodo, isbn: u32) -> bool {
    &&& s.libro.isbn != isbn
    &&& isbn < s.libro.isbn ==> altura_arbol(s.izquierdo) == altura_arbol(s.derecho) + 1
    &&& isbn > s.libro.isbn ==> altura_arbol(s.derecho) == altura_arbol(s.izquierdo) + 1
}

/// Lo que cumple `s`, resultado de insertar `libro` en `t`: es un AVL, guarda el
/// contenido de `t` más el libro (si su ISBN no estaba), su altura crece a lo sumo
/// en uno, y si ya estaba el ISBN el árbol no cambia.
pub open spec fn insercion_correcta(t: Option<Box<Nodo>>, libro: Libro, s: Nodo) -> bool {
    let r = Some(Box::new(s));
    &&& es_avl(r)
    &&& contenido(r) == (if contenido(t).dom().contains(libro.isbn) {
        contenido(t)
    } else {
        contenido(t).insert(libro.isbn, libro)
    })
    &&& altura_arbol(t) <= altura_arbol(r) <= altura_arbol(t) + 1
    &&& (altura_arbol(r) == altura_arbol(t) + 1 && altura_arbol(r) >= 2) ==> crecio_hacia(
        s,
        libro.isbn,
    )
    &&& contenido(t).dom().contains(libro.isbn) ==> t == r
}

/// Caso izquierda-izquierda: una rotación a la derecha deja un AVL con el mismo
/// contenido y la altura del hermano más dos.
proof fn lema_caso_ii(m: Nodo)
    requires
        m.izquierdo is Some,
        es_bst(Some(Box::new(m))),
        es_avl(m.izquierdo),
        es_avl(m.derecho),
        altura_arbol(m.izquierdo) == altura_arbol(m.derecho) + 2,
        altura_arbol(m.izquierdo.unwrap().izquierdo) == altura_arbol(m.izquierdo.unwrap().derecho)
            + 1,
    ensures
        es_avl(Some(Box::new(rotado_derecha(m)))),
        contenido(Some(Box::new(rotado_derecha(m)))) == contenido(Some(Box::new(m))),
        altura_arbol(Some(Box::new(rotado_derecha(m)))) == altura_arbol(m.derecho) + 2,
{
    let s = *m.izquierdo.unwrap();
    lema_altura_acotada(m.izquierdo);
    lema_altura_acotada(m.derecho);
    assert(es_avl(s.izquierdo));
    assert(es_avl(s.derecho));
    lema_rotado_derecha(m);
}

/// Caso izquierda-derecha: rotación a la izquierda del hijo y luego a la derecha.
pub(crate) proof fn lema_caso_id(m: Nodo)
    requires
        m.izquierdo is Some,
        es_bst(Some(Box::new(m))),
        es_avl(m.izquierdo),
        es_avl(m.derecho),
        altura_arbol(m.izquierdo) == altura_arbol(m.derecho) + 2,
        altura_arbol(m.izquierdo.unwrap().derecho) == altura_arbol(m.izquierdo.unwrap().izquierdo)
            + 1,
    ensures
        ({
            let r = Some(
                Box::new(
                    rotado_derecha(
                        con_izquierdo(m, Some(Box::new(rotado_izquierda(*m.izquierdo.unwrap())))),
                    ),
                ),
            );
            &&& es_avl(r)
            &&& contenido(r) == contenido(Some(Box::new(m)))
            &&& altura_arbol(r) == altura_arbol(m.derecho) + 2
        }),
{
    let s = *m.izquierdo.unwrap();
    lema_altura_acotada(m.izquierdo);
    lema_altura_acotada(m.derecho);
    assert(es_avl(s.izquierdo));
    assert(es_avl(s.derecho));
    let d = *s.derecho.unwrap();
    assert(es_avl(d.izquierdo));
    assert(es_avl(d.derecho));
    lema_rotado_izquierda(s);
    let s2 = rotado_izquierda(s);
    let m2 = con_izquierdo(m, Some(Box::new(s2)));
    let a2 = *s2.izquierdo.unwrap();
    assert(a2.izquierdo == s.izquierdo && a2.derecho == d.izquierdo);
    assert(balanceado(s2.izquierdo));
    assert(contenido(m2.izquierdo) == contenido(m.izquierdo));
    assert(contenido(Some(Box::new(m2))) == contenido(Some(Box::new(m))));
    assert(es_bst(Some(Box::new(m2))));
    lema_rotado_derecha(m2);
}

/// Caso derecha-derecha: una rotación a la izquierda deja un AVL con el mismo
/// contenido y la altura del hermano más dos.
proof fn lema_caso_dd(m: Nodo)
    requires
        m.derecho is Some,
        es_bst(Some(Box::new(m))),
        es_avl(m.izquierdo),
        es_avl(m.derecho),
        altura_arbol(m.derecho) == altura_arbol(m.izquierdo) + 2,
        altura_arbol(m.derecho.unwrap().derecho) == altura_arbol(m.derecho.unwrap().izquierdo) + 1,
    ensures
        es_avl(Some(Box::new(rotado_izquierda(m)))),
        contenido(Some(Box::new(rotado_izquierda(m)))) == contenido(Some(Box::new(m))),
        altura_arbol(Some(Box::new(rotado_izquierda(m)))) == altura_arbol(m.izquierdo) + 2,
{
    let s = *m.derecho.unwrap();
    lema_altura_acotada(m.izquierdo);
    lema_altura_acotada(m.derecho);
    assert(es_avl(s.izquierdo));
    assert(es_avl(s.derecho));
    lema_rotado_izquierda(m);
}

/// Caso derecha-izquierda: rotación a la derecha del hijo y luego a la izquierda.
pub(crate) proof fn lema_caso_di(m: Nodo)
    requires
        m.derecho is Some,
        es_bst(Some(Box::new(m))),
        es_avl(m.izquierdo),
        es_avl(m.derecho),
        altura_arbol(m.derecho) == altura_arbol(m.izquierdo) + 2,
        altura_arbol(m.derecho.unwrap().izquierdo) == altura_arbol(m.derecho.unwrap().derecho) + 1,
    ensures
        ({
            let r = Some(
                Box::new(
                    rotado_izquierda(
                        con_derecho(m, Some(Box::new(rotado_derecha(*m.derecho.unwrap())))),
                    ),
                ),
            );
            &&& es_avl(r)
            &&& contenido(r) == contenido(Some(Box::new(m)))
            &&& altura_arbol(r) == altura_arbol(m.izquierdo) + 2
        }),
{
    let s = *m.derecho.unwrap();
    lema_altura_acotada(m.izquierdo);
    lema_altura_acotada(m.derecho);
    assert(es_avl(s.izquierdo));
    assert(es_avl(s.derecho));
    let d = *s.izquierdo.unwrap();
    assert(es_avl(d.izquierdo));
    assert(es_avl(d.derecho));
    lema_rotado_derecha(s);
    let s2 = rotado_derecha(s);
    let m2 = con_derecho(m, Some(Box::new(s2)));
    let a2 = *s2.derecho.unwrap();
    assert(a2.izquierdo == d.derecho && a2.derecho == s.derecho);
    assert(balanceado(s2.derecho));
    assert(contenido(m2.derecho) == contenido(m.derecho));
    assert(contenido(Some(Box::new(m2))) == contenido(Some(Box::new(m))));
    assert(es_bst(Some(Box::new(m2))));
    lema_rotado_izquierda(m2);
}

/// Paso de la inserción por la izquierda: si insertar en el hijo izquierdo es
/// correcto, también lo es insertar en el nodo.
proof fn lema_insercion_izq(n: Nodo, libro: Libro)
    requires
        es_avl(Some(Box::new(n))),
        libro.isbn < n.libro.isbn,
        insercion_correcta(n.izquierdo, libro, insertado(n.izquierdo, libro)),
    ensures
        insercion_correcta(Some(Box::new(n)), libro, insertado(Some(Box::new(n)), libro)),
{
    let t = Some(Box::new(n));
    let isbn = libro.isbn;
    let l = n.izquierdo;
    let d = n.derecho;
    let s = insertado(l, libro);
    let l2 = Some(Box::new(s));
    let m = con_altura(con_izquierdo(n, l2));
    let tm = Some(Box::new(m));
    assert(insertado(t, libro) == rebalanceo_insercion(m, isbn));
    assert(es_avl(l) && es_avl(d));
    lema_altura_acotada(l);
    lema_altura_acotada(d);
    lema_altura_acotada(l2);
    lema_altura_guardada(l2);
    lema_altura_guardada(d);
    lema_altura_guardada(t);
    assert(!contenido(d).dom().contains(isbn));
    assert forall|k: u32| #[trigger] contenido(l2).dom().contains(k) implies k < n.libro.isbn by {
        if k != isbn {
            assert(contenido(l).dom().contains(k));
        }
    }
    assert(es_bst(tm));
    assert(alturas_ok(tm));
    assert(contenido(t).dom().contains(isbn) == contenido(l).dom().contains(isbn));
    let objetivo = if contenido(t).dom().contains(isbn) {
        contenido(t)
    } else {
        contenido(t).insert(isbn, libro)
    };
    assert(contenido(tm) =~= objetivo);
    if altura_arbol(l2) <= altura_arbol(d) + 1 {
        assert(rebalanceo_insercion(m, isbn) == m);
        assert(balanceado(tm));
        if contenido(t).dom().contains(isbn) {
            assert(l2 == l);
            assert(m == n);
        }
    } else {
        assert(altura_arbol(l2) == altura_arbol(d) + 2);
        assert(!contenido(l).dom().contains(isbn));
        assert(crecio_hacia(s, isbn));
        if isbn < s.libro.isbn {
            lema_caso_ii(m);
        } else {
            lema_caso_id(m);
        }
    }
}

/// Paso de la inserción por la derecha: si insertar en el hijo derecho es
/// correcto, también lo es insertar en el nodo.
proof fn lema_insercion_der(n: Nodo, libro: Libro)
    requires
        es_avl(Some(Box::new(n))),
        libro.isbn > n.libro.isbn,
        insercion_correcta(n.derecho, libro, insertado(n.derecho, libro)),
    ensures
        insercion_correcta(Some(Box::new(n)), libro, insertado(Some(Box::new(n)), libro)),
{
    let t = Some(Box::new(n));
    let isbn = libro.isbn;
    let l = n.izquierdo;
    let d = n.derecho;
    let s = insertado(d, libro);
    let d2 = Some(Box::new(s));
    let m = con_altura(con_derecho(n, d2));
    let tm = Some(Box::new(m));
    assert(insertado(t, libro) == rebalanceo_insercion(m, isbn));
    assert(es_avl(l) && es_avl(d));
    lema_altura_acotada(l);
    lema_altura_acotada(d);
    lema_altura_acotada(d2);
    lema_altura_guardada(d2);
    lema_altura_guardada(l);
    lema_altura_guardada(t);
    assert(!contenido(l).dom().contains(isbn));
    assert forall|k: u32| #[trigger] contenido(d2).dom().contains(k) implies k > n.libro.isbn by {
        if k != isbn {
            assert(contenido(d).dom().contains(k));
        }
    }
    assert(es_bst(tm));
    assert(alturas_ok(tm));
    assert(contenido(t).dom().contains(isbn) == contenido(d).dom().contains(isbn));
    let objetivo = if contenido(t).dom().contains(isbn) {
        contenido(t)
    } else {
        contenido(t).insert(isbn, libro)
    };
    assert(contenido(tm) =~= objetivo);
    if altura_arbol(d2) <= altura_arbol(l) + 1 {
        assert(rebalanceo_insercion(m, isbn) == m);
        assert(balanceado(tm));
        if contenido(t).dom().contains(isbn) {
            assert(d2 == d);
            assert(m == n);
        }
    } else {
        assert(altura_arbol(d2) == altura_arbol(l) + 2);
        assert(!contenido(d).dom().contains(isbn));
        assert(crecio_hacia(s, isbn));
        if isbn > s.libro.isbn {
            lema_caso_dd(m);
        } else {
            lema_caso_di(m);
        }
    }
}

/// Insertar en un AVL da un AVL con el libro añadido (si su ISBN no estaba), cuya
/// altura crece a lo sumo en uno; si el ISBN ya estaba, el árbol no cambia.
pub proof fn lema_insertado(t: Option<Box<Nodo>>, libro: Libro)
    requires
        es_avl(t),
    ensures
        insercion_correcta(t, libro, insertado(t, libro)),
    decreases t,
{
    match t {
        None => {
            let r = Some(Box::new(hoja(libro)));
            assert(contenido(r) =~= contenido(t).insert(libro.isbn, libro));
        },
        Some(n) => {
            assert(Some(Box::new(*n)) == t);
            if libro.isbn < n.libro.isbn {
                lema_insertado(n.izquierdo, libro);
                lema_insercion_izq(*n, libro);
            } else if libro.isbn > n.libro.isbn {
                lema_insertado(n.derecho, libro);
                lema_insercion_der(*n, libro);
            } else {
                assert(contenido(t).dom().contains(libro.isbn));
            }
        },
    }
}

/// Recalcula la altura del nodo tras insertar `isbn_nuevo` en uno de sus hijos
/// y aplica la rotación que corresponda.
fn rebalancear_insercion(nodo: Box<Nodo>, isbn_nuevo: u32) -> (r: Box<Nodo>)
    requires
        es_avl(nodo.izquierdo),
        es_avl(nodo.derecho),
        -2 <= altura_arbol(nodo.izquierdo) - altura_arbol(nodo.derecho) <= 2,
        altura_arbol(nodo.izquierdo) - altura_arbol(nodo.derecho) == 2 ==> crecio_hacia(
            *nodo.izquierdo.unwrap(),
            isbn_nuevo,
        ),
        altura_arbol(nodo.derecho) - altura_arbol(nodo.izquierdo) == 2 ==> crecio_hacia(
            *nodo.derecho.unwrap(),
            isbn_nuevo,
        ),
    ensures
        *r == rebalanceo_insercion(con_altura(*nodo), isbn_nuevo),
{
    let mut nodo = nodo;
    proof {
        lema_altura_acotada(nodo.izquierdo);
        lema_altura_acotada(nodo.derecho);
        lema_altura_guardada(nodo.izquierdo);
        lema_altura_guardada(nodo.derecho);
    }
    actualizar_altura(&mut *nodo);
    let balance = obtener_balance(&*nodo);
    proof {
        if nodo.izquierdo is Some {
            let s = *nodo.izquierdo.unwrap();
            assert(es_avl(s.izquierdo) && es_avl(s.derecho));
            lema_altura_acotada(s.izquierdo);
            lema_altura_acotada(s.derecho);
            lema_altura_guardada(s.izquierdo);
            lema_altura_guardada(s.derecho);
        }
        if nodo.derecho is Some {
            let s = *nodo.derecho.unwrap();
            assert(es_avl(s.izquierdo) && es_avl(s.derecho));
            lema_altura_acotada(s.izquierdo);
            lema_altura_acotada(s.derecho);
            lema_altura_guardada(s.izquierdo);
            lema_altura_guardada(s.derecho);
        }
    }
    if balance > 1 && isbn_nuevo < nodo.izquierdo.as_ref().unwrap().libro.isbn {
        return rotar_derecha(nodo);
    }
    if balance < -1 && isbn_nuevo > nodo.derecho.as_ref().unwrap().libro.isbn {
        return rotar_izquierda(nodo);
    }
    if balance > 1 && isbn_nuevo > nodo.izquierdo.as_ref().unwrap().libro.isbn {
        let hijo_izq = nodo.izquierdo.take().unwrap();
        proof {
            let d = *hijo_izq.derecho.unwrap();
            assert(es_avl(d.izquierdo) && es_avl(d.derecho));
            lema_altura_acotada(d.izquierdo);
            lema_altura_acotada(d.derecho);
            lema_altura_guardada(d.izquierdo);
            lema_altura_guardada(d.derecho);
        }
        nodo.izquierdo = Some(rotar_izquierda(hijo_izq));
        return rotar_derecha(nodo);
    }
    if balance < -1 && isbn_nuevo < nodo.derecho.as_ref().unwrap().libro.isbn {
        let hijo_der = nodo.derecho.take().unwrap();
        proof {
            let d = *hijo_der.izquierdo.unwrap();
            assert(es_avl(d.izquierdo) && es_avl(d.derecho));
            lema_altura_acotada(d.izquierdo);
            lema_altura_acotada(d.derecho);
            lema_altura_guardada(d.izquierdo);
            lema_altura_guardada(d.derecho);
        }
        nodo.derecho = Some(rotar_derecha(hijo_der));
        return rotar_izquierda(nodo);
    }
    nodo
}

/// Inserta un libro en el árbol y devuelve la nueva raíz del subárbol. Si ya hay
/// un libro con ese ISBN, el árbol se devuelve sin cambios.
pub fn insertar(nodo_opt: Option<Box<Nodo>>, libro: Libro) -> (r: Box<Nodo>)
    requires
        es_avl(nodo_opt),
    ensures
        *r == insertado(nodo_opt, libro),
        es_avl(Some(r)),
        contenido(Some(r)) == (if contenido(nodo_opt).dom().contains(libro.isbn) {
            contenido(nodo_opt)
        } else {
            contenido(nodo_opt).insert(libro.isbn, libro)
        }),
        altura_arbol(nodo_opt) <= altura_arbol(Some(r)) <= altura_arbol(nodo_opt) + 1,
        contenido(nodo_opt).dom().contains(libro.isbn) ==> nodo_opt == Some(r),
        insercion_correcta(nodo_opt, libro, *r),
    decreases nodo_opt,
{
    let ghost arbol = nodo_opt;
    let ghost nuevo = libro;
    proof {
        lema_insertado(arbol, nuevo);
    }
    let mut nodo = match nodo_opt {
        None => {
            return Box::new(Nodo::nuevo(libro));
        },
        Some(n) => n,
    };
    let ghost n0 = *nodo;
    proof {
        assert(es_avl(n0.izquierdo) && es_avl(n0.derecho));
    }
    let isbn_nuevo = libro.isbn;
    if isbn_nuevo < nodo.libro.isbn {
        nodo.izquierdo = Some(insertar(nodo.izquierdo.take(), libro));
    } else if isbn_nuevo > nodo.libro.isbn {
        nodo.derecho = Some(insertar(nodo.derecho.take(), libro));
    } else {
        return nodo;
    }
    rebalancear_insercion(nodo, isbn_nuevo)
}

} // verus!
