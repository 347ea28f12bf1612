use catalogo_avl::consultas::{buscar, lineas_impresion, obtener_estadisticas};
use catalogo_avl::eliminacion::eliminar;
use catalogo_avl::insercion::insertar;
use catalogo_avl::libro::Libro;
use catalogo_avl::nodo::{
    actualizar_altura, obtener_altura, obtener_balance, rotar_derecha, rotar_izquierda, Nodo,
};

fn libro(isbn: u32, titulo: &str) -> Libro {
    Libro { isbn, titulo: titulo.to_string() }
}

fn datos() -> Vec<(u32, &'static str)> {
    vec![
        (10, "El Quijote"),
        (20, "1984"),
        (30, "Hamlet"),
        (5, "Fahrenheit 451"),
        (2, "La Odisea"),
        (25, "El Principito"),
    ]
}

fn construir(datos: &[(u32, &str)]) -> Option<Box<Nodo>> {
    let mut raiz: Option<Box<Nodo>> = None;
    for (isbn, titulo) in datos {
        raiz = Some(insertar(raiz.take(), libro(*isbn, titulo)));
    }
    raiz
}

fn filas(raiz: &Option<Box<Nodo>>) -> Vec<(usize, u32)> {
    lineas_impresion(raiz, 0).iter().map(|(n, l)| (*n, l.isbn)).collect()
}

/// Comprueba recursivamente que cada nodo guarda su altura real y está balanceado,
/// y que las claves están en orden; devuelve la altura.
fn altura_comprobada(t: &Option<Box<Nodo>>, lo: i64, hi: i64) -> i32 {
    match t {
        None => 0,
        Some(n) => {
            let k = n.libro.isbn as i64;
            assert!(lo < k && k < hi);
            let hi_ = altura_comprobada(&n.izquierdo, lo, k);
            let hd = altura_comprobada(&n.derecho, k, hi);
            assert!((hi_ - hd).abs() <= 1);
            assert_eq!(n.altura, 1 + hi_.max(hd));
            n.altura
        }
    }
}

#[test]
fn nuevo_es_hoja_de_altura_uno() {
    let n = Nodo::nuevo(libro(7, "Siete"));
    assert_eq!(n.libro.isbn, 7);
    assert_eq!(n.libro.titulo, "Siete");
    assert!(n.izquierdo.is_none());
    assert!(n.derecho.is_none());
    assert_eq!(n.altura, 1);
}

#[test]
fn altura_de_vacio_y_de_hoja() {
    assert_eq!(obtener_altura(&None), 0);
    let h = Some(Box::new(Nodo::nuevo(libro(1, "Uno"))));
    assert_eq!(obtener_altura(&h), 1);
}

#[test]
fn actualizar_altura_y_balance() {
    let mut n = Nodo::nuevo(libro(10, "Diez"));
    let mut izq = Nodo::nuevo(libro(5, "Cinco"));
    izq.izquierdo = Some(Box::new(Nodo::nuevo(libro(2, "Dos"))));
    actualizar_altura(&mut izq);
    assert_eq!(izq.altura, 2);
    n.izquierdo = Some(Box::new(izq));
    actualizar_altura(&mut n);
    assert_eq!(n.altura, 3);
    assert_eq!(obtener_balance(&n), 2);
    n.derecho = Some(Box::new(Nodo::nuevo(libro(20, "Veinte"))));
    assert_eq!(obtener_balance(&n), 1);
}

#[test]
fn rotacion_derecha_caso_izquierda_izquierda() {
    let mut y = Nodo::nuevo(libro(10, "Diez"));
    let mut x = Nodo::nuevo(libro(5, "Cinco"));
    x.izquierdo = Some(Box::new(Nodo::nuevo(libro(2, "Dos"))));
    x.derecho = Some(Box::new(Nodo::nuevo(libro(7, "Siete"))));
    actualizar_altura(&mut x);
    y.izquierdo = Some(Box::new(x));
    actualizar_altura(&mut y);
    let r = rotar_derecha(Box::new(y));
    assert_eq!(r.libro.isbn, 5);
    assert_eq!(r.izquierdo.as_ref().unwrap().libro.isbn, 2);
    let d = r.derecho.as_ref().unwrap();
    assert_eq!(d.libro.isbn, 10);
    assert_eq!(d.izquierdo.as_ref().unwrap().libro.isbn, 7);
    assert!(d.derecho.is_none());
    assert_eq!(d.altura, 2);
    assert_eq!(r.altura, 3);
}

#[test]
fn rotacion_izquierda_caso_derecha_derecha() {
    let mut x = Nodo::nuevo(libro(10, "Diez"));
    let mut y = Nodo::nuevo(libro(20, "Veinte"));
    y.derecho = Some(Box::new(Nodo::nuevo(libro(30, "Treinta"))));
    actualizar_altura(&mut y);
    x.derecho = Some(Box::new(y));
    actualizar_altura(&mut x);
    let r = rotar_izquierda(Box::new(x));
    assert_eq!(r.libro.isbn, 20);
    assert_eq!(r.izquierdo.as_ref().unwrap().libro.isbn, 10);
    assert_eq!(r.izquierdo.as_ref().unwrap().altura, 1);
    assert_eq!(r.derecho.as_ref().unwrap().libro.isbn, 30);
    assert_eq!(r.altura, 2);
}

#[test]
fn insercion_del_catalogo_da_la_forma_esperada() {
    let raiz = construir(&datos());
    let r = raiz.as_ref().unwrap();
    assert_eq!(r.libro.isbn, 20);
    assert_eq!(r.altura, 3);
    let i = r.izquierdo.as_ref().unwrap();
    assert_eq!(i.libro.isbn, 5);
    assert_eq!(i.izquierdo.as_ref().unwrap().libro.isbn, 2);
    assert_eq!(i.derecho.as_ref().unwrap().libro.isbn, 10);
    let d = r.derecho.as_ref().unwrap();
    assert_eq!(d.libro.isbn, 30);
    assert_eq!(d.izquierdo.as_ref().unwrap().libro.isbn, 25);
    assert!(d.derecho.is_none());
    altura_comprobada(&raiz, -1, 1 << 40);
}

#[test]
fn impresion_del_catalogo() {
    let raiz = construir(&datos());
    assert_eq!(filas(&raiz), vec![(2, 2), (1, 5), (2, 10), (0, 20), (2, 25), (1, 30)]);
    let todas = lineas_impresion(&raiz, 0);
    assert_eq!(todas[3].1.titulo, "1984");
}

#[test]
fn impresion_con_nivel_inicial() {
    let raiz = construir(&[(1, "a"), (2, "b"), (3, "c")]);
    assert_eq!(filas_desde(&raiz, 3), vec![(4, 1), (3, 2), (4, 3)]);
    assert!(lineas_impresion(&None, 0).is_empty());
}

fn filas_desde(raiz: &Option<Box<Nodo>>, nivel: usize) -> Vec<(usize, u32)> {
    lineas_impresion(raiz, nivel).iter().map(|(n, l)| (*n, l.isbn)).collect()
}

#[test]
fn busqueda_de_existente_e_inexistente() {
    let raiz = construir(&datos());
    let l = buscar(&raiz, 20).unwrap();
    assert_eq!(l.isbn, 20);
    assert_eq!(l.titulo, "1984");
    assert!(buscar(&raiz, 99).is_none());
    assert!(buscar(&None, 1).is_none());
    for (isbn, titulo) in datos() {
        assert_eq!(buscar(&raiz, isbn).unwrap().titulo, titulo);
    }
}

#[test]
fn eliminaciones_del_catalogo() {
    let mut raiz = construir(&datos());
    // Nodo con dos hijos: lo sustituye su sucesor 25.
    raiz = eliminar(raiz, 20);
    assert_eq!(filas(&raiz), vec![(2, 2), (1, 5), (2, 10), (0, 25), (1, 30)]);
    assert_eq!(raiz.as_ref().unwrap().libro.titulo, "El Principito");
    assert!(buscar(&raiz, 20).is_none());
    // Hoja.
    raiz = eliminar(raiz, 2);
    assert_eq!(filas(&raiz), vec![(1, 5), (2, 10), (0, 25), (1, 30)]);
    // Nodo con un hijo.
    raiz = eliminar(raiz, 10);
    assert_eq!(filas(&raiz), vec![(1, 5), (0, 25), (1, 30)]);
    altura_comprobada(&raiz, -1, 1 << 40);
}

#[test]
fn eliminar_de_vacio_y_ausente() {
    assert!(eliminar(None, 3).is_none());
    let raiz = construir(&datos());
    let antes = filas(&raiz);
    let raiz = eliminar(raiz, 99);
    assert_eq!(filas(&raiz), antes);
}

#[test]
fn eliminar_raiz_con_un_solo_hijo() {
    let raiz = construir(&[(1, "a"), (2, "b")]);
    let raiz = eliminar(raiz, 1);
    assert_eq!(filas(&raiz), vec![(0, 2)]);
    let raiz = construir(&[(2, "b"), (1, "a")]);
    let raiz = eliminar(raiz, 2);
    assert_eq!(filas(&raiz), vec![(0, 1)]);
    let raiz = eliminar(raiz, 1);
    assert!(raiz.is_none());
}

#[test]
fn eliminacion_con_rotacion_doble() {
    // 20(10(,15),30): al eliminar 30 el nodo queda cargado a la izquierda y su hijo
    // izquierdo cargado a la derecha: rotación izquierda-derecha.
    let raiz = construir(&[(20, "a"), (10, "b"), (30, "c"), (15, "d")]);
    let raiz = eliminar(raiz, 30);
    assert_eq!(filas(&raiz), vec![(1, 10), (0, 15), (1, 20)]);
    altura_comprobada(&raiz, -1, 1 << 40);
    // Simétrico: 10(5,20(15,)) al eliminar 5.
    let raiz = construir(&[(10, "a"), (5, "b"), (20, "c"), (15, "d")]);
    let raiz = eliminar(raiz, 5);
    assert_eq!(filas(&raiz), vec![(1, 10), (0, 15), (1, 20)]);
    // Rotación simple con hijo balanceado: 10(5,20(15,25)) al eliminar 5.
    let raiz = construir(&[(10, "a"), (5, "b"), (20, "c"), (15, "d"), (25, "e")]);
    let raiz = eliminar(raiz, 5);
    assert_eq!(filas(&raiz), vec![(1, 10), (2, 15), (0, 20), (1, 25)]);
    altura_comprobada(&raiz, -1, 1 << 40);
}

#[test]
fn insercion_con_rotaciones_dobles() {
    // Izquierda-derecha.
    let raiz = construir(&[(30, "a"), (10, "b"), (20, "c")]);
    assert_eq!(filas(&raiz), vec![(1, 10), (0, 20), (1, 30)]);
    // Derecha-izquierda.
    let raiz = construir(&[(10, "a"), (30, "b"), (20, "c")]);
    assert_eq!(filas(&raiz), vec![(1, 10), (0, 20), (1, 30)]);
    // Izquierda-izquierda.
    let raiz = construir(&[(30, "a"), (20, "b"), (10, "c")]);
    assert_eq!(filas(&raiz), vec![(1, 10), (0, 20), (1, 30)]);
}

#[test]
fn insertar_isbn_repetido_no_cambia_nada() {
    let raiz = construir(&datos());
    let antes = filas(&raiz);
    let raiz = Some(insertar(raiz, libro(30, "Otro título")));
    assert_eq!(filas(&raiz), antes);
    assert_eq!(buscar(&raiz, 30).unwrap().titulo, "Hamlet");
}

#[test]
fn estadisticas_del_catalogo() {
    let mut raiz = construir(&datos());
    let e = obtener_estadisticas(&raiz);
    assert_eq!(e.altura_total, 3);
    assert_eq!(e.total_nodos, 6);
    let mayor = e.libro_isbn_mayor.unwrap();
    assert_eq!(mayor.isbn, 30);
    assert_eq!(mayor.titulo, "Hamlet");
    // La altura calculada coincide con la guardada en la raíz.
    assert_eq!(e.altura_total as i32, obtener_altura(&raiz));

    raiz = eliminar(raiz, 30);
    let e = obtener_estadisticas(&raiz);
    assert_eq!(e.altura_total, 3);
    assert_eq!(e.total_nodos, 5);
    let mayor = e.libro_isbn_mayor.unwrap();
    assert_eq!(mayor.isbn, 25);
    assert_eq!(mayor.titulo, "El Principito");
}

#[test]
fn estadisticas_de_arbol_vacio() {
    let e = obtener_estadisticas(&None);
    assert_eq!(e.altura_total, 0);
    assert_eq!(e.total_nodos, 0);
    assert!(e.libro_isbn_mayor.is_none());
}

#[test]
fn buscar_tras_insertar_y_eliminar() {
    let mut raiz = construir(&datos());
    raiz = Some(insertar(raiz, libro(40, "Nuevo")));
    assert_eq!(buscar(&raiz, 40).unwrap().titulo, "Nuevo");
    for (isbn, titulo) in datos() {
        assert_eq!(buscar(&raiz, isbn).unwrap().titulo, titulo);
    }
    raiz = eliminar(raiz, 40);
    assert!(buscar(&raiz, 40).is_none());
    for (isbn, titulo) in datos() {
        assert_eq!(buscar(&raiz, isbn).unwrap().titulo, titulo);
    }
}

#[test]
fn tamano_tras_insertar_y_eliminar() {
    let mut raiz = construir(&datos());
    raiz = Some(insertar(raiz, libro(40, "Nuevo")));
    assert_eq!(obtener_estadisticas(&raiz).total_nodos, 7);
    raiz = Some(insertar(raiz, libro(40, "Repetido")));
    assert_eq!(obtener_estadisticas(&raiz).total_nodos, 7);
    raiz = eliminar(raiz, 5);
    assert_eq!(obtener_estadisticas(&raiz).total_nodos, 6);
    raiz = eliminar(raiz, 5);
    assert_eq!(obtener_estadisticas(&raiz).total_nodos, 6);
}

#[test]
fn muchas_inserciones_mantienen_el_avl_y_altura_logaritmica() {
    let mut raiz: Option<Box<Nodo>> = None;
    for i in 0..1000u32 {
        let isbn = (i * 7919) % 1000;
        raiz = Some(insertar(raiz, libro(isbn, "x")));
    }
    let h = altura_comprobada(&raiz, -1, 1 << 40);
    // 2^(h/2) <= n + 1
    assert!(1u64 << (h / 2) <= 1001);
    let e = obtener_estadisticas(&raiz);
    assert_eq!(e.total_nodos, 1000);
    assert_eq!(e.altura_total as i32, h);
    assert_eq!(e.libro_isbn_mayor.unwrap().isbn, 999);
    let f = filas(&raiz);
    assert!(f.windows(2).all(|w| w[0].1 < w[1].1));
    for i in (0..1000u32).step_by(3) {
        raiz = eliminar(raiz, i);
    }
    altura_comprobada(&raiz, -1, 1 << 40);
    assert_eq!(obtener_estadisticas(&raiz).total_nodos, 666);
    for i in 0..1000u32 {
        assert_eq!(buscar(&raiz, i).is_some(), i % 3 != 0);
    }
}

#[test]
fn clonar_libro_copia_los_campos() {
    let l = libro(3, "Tres");
    let c = l.clone();
    assert_eq!(c.isbn, 3);
    assert_eq!(c.titulo, "Tres");
}

#[test]
fn impresion_en_orden_de_dos_libros() {
    let raiz = construir(&[(1, "a"), (2, "b")]);
    assert_eq!(filas(&raiz), vec![(0, 1), (1, 2)]);
}
