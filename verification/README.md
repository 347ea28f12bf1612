# catalogo_avl

Catálogo de libros indexado por ISBN sobre un árbol AVL, verificado con Verus.

- `src/libro.rs`: el libro (ISBN y título).
- `src/nodo.rs`: el nodo, su modelo (altura real, tamaño, contenido como mapa
  ISBN → libro, invariante AVL), la altura guardada, el balance y las rotaciones.
- `src/propiedades.rs`: cota de tamaño por ISBN de 32 bits, altura logarítmica,
  lemas de las rotaciones.
- `src/insercion.rs`, `src/eliminacion.rs`: inserción y eliminación con rebalanceo,
  su definición exacta y la prueba de que conservan el invariante.
- `src/consultas.rs`: búsqueda, estadísticas y filas para dibujar el árbol.
- `src/leyes.rs`: leyes que relacionan las operaciones.
- `app/main.rs`: demostración que imprime cada paso.
