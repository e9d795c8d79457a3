//! A cube state: the permutation accumulated since the solved arrangement.
use vstd::prelude::*;
use crate::catalog::{face_named, table_spec, Face, RotationCatalog, FACELETS};
use crate::perm::{apply_seq, compose_seq, identity_seq, PermError, Permutation};

verus! {

/// Errors raised by a cube state.
#[derive(Debug, Clone, Copy, PartialEq, Eq, Structural)]
pub enum CubeError {
    /// The name is not one of the catalog's generators.
    UnknownGenerator,
}

/// The turns applied so far, as one permutation, with the catalog they come from.
pub struct CubeState {
    catalog: RotationCatalog,
    current: Permutation,
}

impl View for CubeState {
    type V = Seq<usize>;

    closed spec fn view(&self) -> Seq<usize> {
        self.current@
    }
}

impl CubeState {
    /// The catalog is valid and the state is a permutation of the facelets.
    pub closed spec fn wf(&self) -> bool {
        &&& self.catalog.wf()
        &&& self.current.wf()
        &&& self.current@.len() == FACELETS
    }

    /// The solved state, turning faces with `catalog`.
    pub fn new(catalog: RotationCatalog) -> (r: CubeState)
        requires
            catalog.wf(),
        ensures
            r.wf(),
            r@ == identity_seq(FACELETS as nat),
    {
        CubeState { catalog, current: Permutation::identity(FACELETS) }
    }

    /// The catalog whose generators this state applies.
    pub fn catalog(&self) -> (r: &RotationCatalog)
        requires
            self.wf(),
        ensures
            r.wf(),
    {
        &self.catalog
    }

    /// The accumulated permutation.
    pub fn current(&self) -> (r: &Permutation)
        requires
            self.wf(),
        ensures
            r@ == self@,
            r.wf(),
    {
        &self.current
    }

    /// Returns to the solved state.
    pub fn reset(&mut self)
        requires
            old(self).wf(),
        ensures
            final(self).wf(),
            final(self)@ == identity_seq(FACELETS as nat),
    {
        self.current = Permutation::identity(FACELETS);
    }

    /// Composes the generator named `name` into the state; fails with
    /// `UnknownGenerator`, leaving the state unchanged, when no face has that name.
    pub fn apply_generator(&mut self, name: &str) -> (r: Result<(), CubeError>)
        requires
            old(self).wf(),
        ensures
            final(self).wf(),
            r is Ok <==> face_named(name@) is Some,
            r is Ok ==> final(self)@ == compose_seq(old(self)@, table_spec(face_named(name@)->Some_0)),
            r is Err ==> r->Err_0 == CubeError::UnknownGenerator && final(self)@ == old(self)@,
    {
        match Face::from_name(name) {
            None => Err(CubeError::UnknownGenerator),
            Some(f) => {
                let next = self.current.compose_same(self.catalog.generator(f));
                self.current = next;
                Ok(())
            },
        }
    }

    /// Composes an arbitrary permutation, such as the inverse of a generator,
    /// into the state; fails with `DimensionMismatch` unless it acts on the facelets.
    pub fn apply_permutation(&mut self, g: &Permutation) -> (r: Result<(), PermError>)
        requires
            old(self).wf(),
            g.wf(),
        ensures
            final(self).wf(),
            r is Ok <==> g@.len() == FACELETS,
            r is Ok ==> final(self)@ == compose_seq(old(self)@, g@),
            r is Err ==> r->Err_0 == PermError::DimensionMismatch && final(self)@ == old(self)@,
    {
        if g.len() != FACELETS {
            return Err(PermError::DimensionMismatch);
        }
        let next = self.current.compose_same(g);
        self.current = next;
        Ok(())
    }

    /// The labeling of the facelets: the state applied to the identity labeling.
    pub fn current_labeling(&self) -> (r: Vec<usize>)
        requires
            self.wf(),
        ensures
            r@ == apply_seq(self@, identity_seq(FACELETS as nat)),
            r@.len() == FACELETS,
    {
        let labels = Permutation::identity(FACELETS).to_vec();
        match self.current.apply(&labels) {
            Ok(out) => out,
            Err(_) => labels,
        }
    }

    /// Whether the state is the solved arrangement.
    pub fn is_solved(&self) -> (r: bool)
        requires
            self.wf(),
        ensures
            r <==> self@ == identity_seq(FACELETS as nat),
    {
        self.current.is_identity()
    }
}

} // verus!
