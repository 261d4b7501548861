//! The quad: a rectangle with a position, a size, a rotation, a depth and a
//! colour, and a transform matrix that is recomputed only when one of them
//! has changed.

use vstd::prelude::*;

verus! {

/// A rectangle to draw. `position` is its top-left corner before rotation,
/// `rotation` is in degrees, and the depth index orders it among other
/// quads.
///
/// The transform matrix is cached. Every mutator marks the cache stale, and
/// `get_transform` recomputes it from the position, the size and the
/// rotation when, and only when, it is stale.
pub struct Quad<S> {
    position: [S; 2],
    size: [S; 2],
    rotation: S,
    z_index: i32,
    pub color: [S; 4],
    transform: [S; 16],
    transform_needs_update: bool,
}

/// What a quad holds.
pub struct QuadView<S> {
    pub position: [S; 2],
    pub size: [S; 2],
    pub rotation: S,
    pub z_index: i32,
    pub color: [S; 4],
    /// The matrix in the cache, stale or not.
    pub transform: [S; 16],
    /// Whether a mutator has run since the matrix was last computed.
    pub needs_update: bool,
}

impl<S> QuadView<S> {
    /// The quad after `get_transform`, where `computed` is what the
    /// computation gives for its position, size and rotation: a stale cache
    /// takes `computed`, a fresh one stays as it is.
    pub open spec fn refreshed(self, computed: [S; 16]) -> Self {
        if self.needs_update {
            QuadView { transform: computed, needs_update: false, ..self }
        } else {
            self
        }
    }

    /// The quad after `set_position`: moved, with a stale cache.
    pub open spec fn with_position(self, position: [S; 2]) -> Self {
        QuadView { position, needs_update: true, ..self }
    }

    /// The quad after `set_size`: resized, with a stale cache.
    pub open spec fn with_size(self, size: [S; 2]) -> Self {
        QuadView { size, needs_update: true, ..self }
    }

    /// The quad after `set_rotation`: turned, with a stale cache.
    pub open spec fn with_rotation(self, rotation: S) -> Self {
        QuadView { rotation, needs_update: true, ..self }
    }

    /// The quad after `set_z_index`: at another depth, with a stale cache.
    pub open spec fn with_z_index(self, z_index: i32) -> Self {
        QuadView { z_index, needs_update: true, ..self }
    }

    /// Repeated `get_transform` calls with no mutator between them: the
    /// second returns what the first returned and changes nothing, whatever
    /// the computation would give by then.
    pub proof fn lemma_transform_is_stable(self, first: [S; 16], second: [S; 16])
        ensures
            !self.refreshed(first).needs_update,
            self.refreshed(first).refreshed(second) == self.refreshed(first),
            self.refreshed(first).refreshed(second).transform == self.refreshed(first).transform,
    {
    }

    /// A fresh cache is what `get_transform` returns, and the call changes
    /// nothing.
    pub proof fn lemma_fresh_cache_is_kept(self, computed: [S; 16])
        requires
            !self.needs_update,
        ensures
            self.refreshed(computed) == self,
    {
    }

    /// After any mutator the cache is stale and the next `get_transform`
    /// takes the newly computed matrix; after that the cache is fresh again.
    pub proof fn lemma_mutators_invalidate(
        self,
        position: [S; 2],
        size: [S; 2],
        rotation: S,
        z_index: i32,
        computed: [S; 16],
    )
        ensures
            self.with_position(position).needs_update,
            self.with_size(size).needs_update,
            self.with_rotation(rotation).needs_update,
            self.with_z_index(z_index).needs_update,
            self.with_position(position).refreshed(computed).transform == computed,
            self.with_size(size).refreshed(computed).transform == computed,
            self.with_rotation(rotation).refreshed(computed).transform == computed,
            self.with_z_index(z_index).refreshed(computed).transform == computed,
            !self.with_position(position).refreshed(computed).needs_update,
            !self.with_size(size).refreshed(computed).needs_update,
            !self.with_rotation(rotation).refreshed(computed).needs_update,
            !self.with_z_index(z_index).refreshed(computed).needs_update,
    {
    }
}

impl<S> View for Quad<S> {
    type V = QuadView<S>;

    closed spec fn view(&self) -> QuadView<S> {
        QuadView {
            position: self.position,
            size: self.size,
            rotation: self.rotation,
            z_index: self.z_index,
            color: self.color,
            transform: self.transform,
            needs_update: self.transform_needs_update,
        }
    }
}

impl<S: Copy> Quad<S> {
    /// A quad at depth 0 whose cache holds the transform that `compute`
    /// gives for it.
    pub fn new<F: FnOnce([S; 2], [S; 2], S) -> [S; 16]>(
        position: [S; 2],
        size: [S; 2],
        rotation: S,
        color: [S; 4],
        compute: F,
    ) -> (quad: Self)
        requires
            call_requires(compute, (position, size, rotation)),
        ensures
            quad@.position == position,
            quad@.size == size,
            quad@.rotation == rotation,
            quad@.z_index == 0,
            quad@.color == color,
            !quad@.needs_update,
            call_ensures(compute, (position, size, rotation), quad@.transform),
    {
        let transform = compute(position, size, rotation);
        Self {
            position,
            size,
            rotation,
            z_index: 0,
            color,
            transform,
            transform_needs_update: false,
        }
    }

    /// Moves the top-left corner of the quad to `position`.
    pub fn set_position(&mut self, position: [S; 2])
        ensures
            final(self)@ == old(self)@.with_position(position),
    {
        self.position = position;
        self.transform_needs_update = true;
    }

    /// The top-left corner of the quad, before rotation.
    pub fn get_position(&self) -> (position: [S; 2])
        ensures
            position == self@.position,
    {
        self.position
    }

    /// Gives the quad the width and height `size`.
    pub fn set_size(&mut self, size: [S; 2])
        ensures
            final(self)@ == old(self)@.with_size(size),
    {
        self.size = size;
        self.transform_needs_update = true;
    }

    /// The width and height of the quad.
    pub fn get_size(&self) -> (size: [S; 2])
        ensures
            size == self@.size,
    {
        self.size
    }

    /// Turns the quad to `rotation` degrees about its centre.
    pub fn set_rotation(&mut self, rotation: S)
        ensures
            final(self)@ == old(self)@.with_rotation(rotation),
    {
        self.rotation = rotation;
        self.transform_needs_update = true;
    }

    /// The rotation of the quad in degrees.
    pub fn get_rotation(&self) -> (rotation: S)
        ensures
            rotation == self@.rotation,
    {
        self.rotation
    }

    /// Puts the quad at the depth index `z_index`.
    pub fn set_z_index(&mut self, z_index: i32)
        ensures
            final(self)@ == old(self)@.with_z_index(z_index),
    {
        self.z_index = z_index;
        self.transform_needs_update = true;
    }

    /// The depth index of the quad: quads of lower depth are drawn first.
    pub fn get_z_index(&self) -> (z_index: i32)
        ensures
            z_index == self@.z_index,
    {
        self.z_index
    }

    /// The colour of the quad. It is changed by writing the field, which
    /// leaves the transform as it is.
    pub fn get_color(&self) -> (color: [S; 4])
        ensures
            color == self@.color,
    {
        self.color
    }

    /// Whether the next `get_transform` will recompute the matrix.
    pub fn transform_needs_update(&self) -> (stale: bool)
        ensures
            stale == self@.needs_update,
    {
        self.transform_needs_update
    }

    /// The transform of the quad. A stale cache is first refilled with what
    /// `compute` gives for the position, the size and the rotation; a fresh
    /// one is returned as it is and `compute` is not called.
    pub fn get_transform<F: FnOnce([S; 2], [S; 2], S) -> [S; 16]>(&mut self, compute: F) -> (transform: [S; 16])
        requires
            old(self)@.needs_update ==> call_requires(
                compute,
                (old(self)@.position, old(self)@.size, old(self)@.rotation),
            ),
        ensures
            final(self)@ == old(self)@.refreshed(transform),
            transform == final(self)@.transform,
            old(self)@.needs_update ==> call_ensures(
                compute,
                (old(self)@.position, old(self)@.size, old(self)@.rotation),
                transform,
            ),
    {
        if self.transform_needs_update {
            self.transform_needs_update = false;
            self.transform = compute(self.position, self.size, self.rotation);
        }
        self.transform
    }
}

} // verus!
