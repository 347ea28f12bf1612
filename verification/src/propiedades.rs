use vstd::prelude::*;

use crate::nodo::{
    altura_arbol, altura_de, alturas_ok, balanceado, contenido, es_bst, maximo, rotado_derecha,
    rotado_izquierda, tamano, Nodo,
};

verus! {

/// 2 elevado a `n`.
pub open spec fn pot2(n: nat) -> nat
    decreases n,
{
    if n == 0 {
        1
    } else {
        2 * pot2((n - 1) as nat)
    }
}

/// Cada libro del contenido está guardado bajo su propio ISBN.
pub proof fn lema_claves(t: Option<Box<Nodo>>)
    ensures
        forall|k: u32| #[trigger] contenido(t).dom().contains(k) ==> contenido(t)[k].isbn == k,
    decreases t,
{
    if let Some(n) = t {
        lema_claves(n.izquierdo);
        lema_claves(n.derecho);
        let ci = contenido(n.izquierdo);
        let cd = contenido(n.derecho);
        assert forall|k: u32| #[trigger] contenido(t).dom().contains(k) implies contenido(t)[k].isbn == k by {
            if k != n.libro.isbn {
                if cd.dom().contains(k) {
                    assert(cd[k].isbn == k);
                } else {
                    assert(ci.dom().contains(k));
                    assert(ci[k].isbn == k);
                }
            }
        }
    }
}

/// Un árbol de búsqueda cuyas claves están en `[lo, hi)` tiene a lo sumo `hi - lo` nodos.
proof fn lema_tamano_rango(t: Option<Box<Nodo>>, lo: int, hi: int)
    requires
        es_bst(t),
        lo <= hi,
        forall|k: u32| #[trigger] contenido(t).dom().contains(k) ==> lo <= k < hi,
    ensures
        tamano(t) <= hi - lo,
    decreases t,
{
    if let Some(n) = t {
        let k = n.libro.isbn;
        assert(contenido(t).dom().contains(k));
        assert forall|j: u32| #[trigger] contenido(n.izquierdo).dom().contains(j) implies lo <= j < k by {
            assert(contenido(t).dom().contains(j));
        }
        assert forall|j: u32| #[trigger] contenido(n.derecho).dom().contains(j) implies k + 1 <= j < hi by {
            assert(contenido(t).dom().contains(j));
        }
        lema_tamano_rango(n.izquierdo, lo, k as int);
        lema_tamano_rango(n.derecho, k + 1, hi);
    }
}

/// Un árbol de búsqueda sobre ISBN de 32 bits tiene a lo sumo 2^32 nodos.
pub proof fn lema_tamano_maximo(t: Option<Box<Nodo>>)
    requires
        es_bst(t),
    ensures
        tamano(t) <= 0x1_0000_0000,
{
    lema_tamano_rango(t, 0, 0x1_0000_0000);
}

/// `pot2` es creciente.
pub proof fn lema_pot2_creciente(a: nat, b: nat)
    requires
        a <= b,
    ensures
        pot2(a) <= pot2(b),
    decreases b,
{
    if a < b {
        lema_pot2_creciente(a, (b - 1) as nat);
    }
}

/// Un árbol balanceado de altura `h` tiene al menos `2^(h/2) - 1` nodos.
pub proof fn lema_altura_logaritmica(t: Option<Box<Nodo>>)
    requires
        balanceado(t),
    ensures
        pot2(altura_arbol(t) / 2) <= tamano(t) + 1,
    decreases t,
{
    if let Some(n) = t {
        lema_altura_logaritmica(n.izquierdo);
        lema_altura_logaritmica(n.derecho);
        let h = altura_arbol(t);
        let hi = altura_arbol(n.izquierdo);
        let hd = altura_arbol(n.derecho);
        let (alto, bajo) = if hi >= hd { (hi, hd) } else { (hd, hi) };
        assert(alto == h - 1);
        assert(bajo + 2 >= h);
        if h % 2 == 0 {
            assert(h >= 2);
            let m = (h / 2 - 1) as nat;
            assert(pot2(h / 2) == 2 * pot2(m));
            lema_pot2_creciente(m, alto / 2);
            lema_pot2_creciente(m, bajo / 2);
        } else {
            assert(alto / 2 == h / 2);
        }
    }
}

/// La altura de un árbol AVL sobre ISBN de 32 bits no pasa de 65.
pub proof fn lema_altura_acotada(t: Option<Box<Nodo>>)
    requires
        es_bst(t),
        balanceado(t),
    ensures
        altura_arbol(t) <= 65,
{
    lema_tamano_maximo(t);
    lema_altura_logaritmica(t);
    if altura_arbol(t) > 65 {
        lema_pot2_creciente(33, altura_arbol(t) / 2);
        assert(pot2(33) == 0x2_0000_0000) by {
            reveal_with_fuel(pot2, 34);
        }
    }
}

/// Si las alturas guardadas son correctas, la de la raíz es la altura real.
pub proof fn lema_altura_guardada(t: Option<Box<Nodo>>)
    requires
        alturas_ok(t),
    ensures
        altura_de(t) == altura_arbol(t),
{
}

/// La rotación a la derecha conserva el contenido, el orden de búsqueda y las
/// alturas guardadas; su altura y su balance dependen solo de los tres subárboles.
pub proof fn lema_rotado_derecha(y: Nodo)
    requires
        y.izquierdo is Some,
        es_bst(Some(Box::new(y))),
        alturas_ok(y.izquierdo.unwrap().izquierdo),
        alturas_ok(y.izquierdo.unwrap().derecho),
        alturas_ok(y.derecho),
        altura_arbol(y.izquierdo.unwrap().izquierdo) <= 100,
        altura_arbol(y.izquierdo.unwrap().derecho) <= 100,
        altura_arbol(y.derecho) <= 100,
    ensures
        ({
            let r = Some(Box::new(rotado_derecha(y)));
            let a = y.izquierdo.unwrap().izquierdo;
            let b = y.izquierdo.unwrap().derecho;
            let c = y.derecho;
            &&& contenido(r) == contenido(Some(Box::new(y)))
            &&& es_bst(r)
            &&& alturas_ok(r)
            &&& altura_arbol(r) == 1 + maximo(
                altura_arbol(a) as int,
                1 + maximo(altura_arbol(b) as int, altura_arbol(c) as int),
            )
            &&& (balanceado(a) && balanceado(b) && balanceado(c) && -1 <= altura_arbol(b)
                - altura_arbol(c) <= 1 && -1 <= altura_arbol(a) - 1 - maximo(
                altura_arbol(b) as int,
                altura_arbol(c) as int,
            ) <= 1) ==> balanceado(r)
        }),
{
    let x = *y.izquierdo.unwrap();
    let a = x.izquierdo;
    let b = x.derecho;
    let c = y.derecho;
    lema_altura_guardada(a);
    lema_altura_guardada(b);
    lema_altura_guardada(c);
    let rot = rotado_derecha(y);
    let y2 = *rot.derecho.unwrap();
    let r = Some(Box::new(rot));
    let ty = Some(Box::new(y));
    let tx = y.izquierdo;
    assert(contenido(tx).dom().contains(x.libro.isbn));
    assert(x.libro.isbn < y.libro.isbn);
    assert(es_bst(tx));
    assert(forall|k: u32| #[trigger] contenido(a).dom().contains(k) ==> k < x.libro.isbn);
    assert(forall|k: u32| #[trigger] contenido(b).dom().contains(k) ==> k > x.libro.isbn);
    assert(forall|k: u32| #[trigger] contenido(c).dom().contains(k) ==> k > y.libro.isbn);
    assert forall|k: u32| #[trigger] contenido(b).dom().contains(k) implies k < y.libro.isbn by {
        assert(contenido(tx).dom().contains(k));
    }
    assert forall|k: u32| #[trigger] contenido(a).dom().contains(k) implies k < y.libro.isbn by {
        assert(contenido(tx).dom().contains(k));
    }
    assert(y2.libro == y.libro && y2.izquierdo == b && y2.derecho == c);
    assert(contenido(Some(Box::new(y2))) == contenido(b).union_prefer_right(contenido(c)).insert(
        y.libro.isbn,
        y.libro,
    ));
    assert forall|k: u32| #[trigger] contenido(Some(Box::new(y2))).dom().contains(k) implies k
        > x.libro.isbn by {
        if contenido(c).dom().contains(k) {
        }
    }
    assert(contenido(r) =~= contenido(ty)) by {
        assert forall|k: u32| #[trigger] contenido(a).dom().contains(k) implies !contenido(
            b,
        ).dom().contains(k) && !contenido(c).dom().contains(k) && k != y.libro.isbn by {
            assert(contenido(tx).dom().contains(k));
        }
        assert forall|k: u32| #[trigger] contenido(b).dom().contains(k) implies !contenido(
            c,
        ).dom().contains(k) by {
            assert(contenido(tx).dom().contains(k));
        }
    }
    let t2 = Some(Box::new(y2));
    assert(es_bst(t2));
    assert(es_bst(r));
    assert(altura_arbol(t2) == 1 + maximo(altura_arbol(b) as int, altura_arbol(c) as int));
    assert(alturas_ok(t2));
    assert(alturas_ok(r));
    assert(altura_arbol(r) == 1 + maximo(altura_arbol(a) as int, altura_arbol(t2) as int));
    if balanceado(a) && balanceado(b) && balanceado(c) && -1 <= altura_arbol(b) - altura_arbol(c)
        <= 1 && -1 <= altura_arbol(a) - 1 - maximo(altura_arbol(b) as int, altura_arbol(c) as int)
        <= 1 {
        assert(balanceado(t2));
        assert(balanceado(r));
    }
}

/// La rotación a la izquierda conserva el contenido, el orden de búsqueda y las
/// alturas guardadas; su altura y su balance dependen solo de los tres subárboles.
pub proof fn lema_rotado_izquierda(x: Nodo)
    requires
        x.derecho is Some,
        es_bst(Some(Box::new(x))),
        alturas_ok(x.izquierdo),
        alturas_ok(x.derecho.unwrap().izquierdo),
        alturas_ok(x.derecho.unwrap().derecho),
        altura_arbol(x.izquierdo) <= 100,
        altura_arbol(x.derecho.unwrap().izquierdo) <= 100,
        altura_arbol(x.derecho.unwrap().derecho) <= 100,
    ensures
        ({
            let r = Some(Box::new(rotado_izquierda(x)));
            let a = x.izquierdo;
            let b = x.derecho.unwrap().izquierdo;
            let c = x.derecho.unwrap().derecho;
            &&& contenido(r) == contenido(Some(Box::new(x)))
            &&& es_bst(r)
            &&& alturas_ok(r)
            &&& altura_arbol(r) == 1 + maximo(
                1 + maximo(altura_arbol(a) as int, altura_arbol(b) as int),
                altura_arbol(c) as int,
            )
            &&& (balanceado(a) && balanceado(b) && balanceado(c) && -1 <= altura_arbol(a)
                - altura_arbol(b) <= 1 && -1 <= 1 + maximo(
                altura_arbol(a) as int,
                altura_arbol(b) as int,
            ) - altura_arbol(c) <= 1) ==> balanceado(r)
        }),
{
    let y = *x.derecho.unwrap();
    let a = x.izquierdo;
    let b = y.izquierdo;
    let c = y.derecho;
    lema_altura_guardada(a);
    lema_altura_guardada(b);
    lema_altura_guardada(c);
    let rot = rotado_izquierda(x);
    let x2 = *rot.izquierdo.unwrap();
    let r = Some(Box::new(rot));
    let tx = Some(Box::new(x));
    let ty = x.derecho;
    assert(contenido(ty).dom().contains(y.libro.isbn));
    assert(x.libro.isbn < y.libro.isbn);
    assert(es_bst(ty));
    assert(forall|k: u32| #[trigger] contenido(c).dom().contains(k) ==> k > y.libro.isbn);
    assert(forall|k: u32| #[trigger] contenido(b).dom().contains(k) ==> k < y.libro.isbn);
    assert(forall|k: u32| #[trigger] contenido(a).dom().contains(k) ==> k < x.libro.isbn);
    assert forall|k: u32| #[trigger] contenido(b).dom().contains(k) implies k > x.libro.isbn by {
        assert(contenido(ty).dom().contains(k));
    }
    assert forall|k: u32| #[trigger] contenido(c).dom().contains(k) implies k > x.libro.isbn by {
        assert(contenido(ty).dom().contains(k));
    }
    assert(x2.libro == x.libro && x2.izquierdo == a && x2.derecho == b);
    assert(contenido(Some(Box::new(x2))) == contenido(a).union_prefer_right(contenido(b)).insert(
        x.libro.isbn,
        x.libro,
    ));
    assert forall|k: u32| #[trigger] contenido(Some(Box::new(x2))).dom().contains(k) implies k
        < y.libro.isbn by {
        if contenido(a).dom().contains(k) {
        }
    }
    assert(contenido(r) =~= contenido(tx)) by {
        assert forall|k: u32| #[trigger] contenido(c).dom().contains(k) implies !contenido(
            b,
        ).dom().contains(k) && !contenido(a).dom().contains(k) && k != x.libro.isbn by {
            assert(contenido(ty).dom().contains(k));
        }
        assert forall|k: u32| #[trigger] contenido(b).dom().contains(k) implies !contenido(
            a,
        ).dom().contains(k) && k != x.libro.isbn && k != y.libro.isbn by {
            assert(contenido(ty).dom().contains(k));
        }
        assert(contenido(ty) == contenido(b).union_prefer_right(contenido(c)).insert(
            y.libro.isbn,
            y.libro,
        ));
    }
    let t2 = Some(Box::new(x2));
    assert(es_bst(t2));
    assert(es_bst(r));
    assert(altura_arbol(t2) == 1 + maximo(altura_arbol(a) as int, altura_arbol(b) as int));
    assert(alturas_ok(t2));
    assert(alturas_ok(r));
    assert(altura_arbol(r) == 1 + maximo(altura_arbol(t2) as int, altura_arbol(c) as int));
    if balanceado(a) && balanceado(b) && balanceado(c) && -1 <= altura_arbol(a) - altura_arbol(b)
        <= 1 && -1 <= 1 + maximo(altura_arbol(a) as int, altura_arbol(b) as int) - altura_arbol(c)
        <= 1 {
        assert(balanceado(t2));
        assert(balanceado(r));
    }
}

} // verus!
