//! Catálogo de libros indexado por ISBN sobre un árbol AVL.

pub mod libro;
pub mod nodo;
pub mod propiedades;
pub mod insercion;
pub mod eliminacion;
pub mod consultas;
pub mod leyes;
