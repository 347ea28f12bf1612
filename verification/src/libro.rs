use vstd::prelude::*;

verus! {

/// Un libro del catálogo, identificado por su ISBN.
#[derive(Debug)]
pub struct Libro {
    pub isbn: u32,
    pub titulo: String,
}

impl Clone for Libro {
    /// Copia el libro campo a campo.
    fn clone(&self) -> (copia: Self)
        ensures
            copia == *self,
    {
        Libro { isbn: self.isbn, titulo: self.titulo.clone() }
    }
}

} // verus!
