//! The entity-component datastore: one typed table per data kind, keyed by
//! entity id. An entity is an index; a table holds `Some` exactly for the
//! entities that carry that kind of data.
//!
//! Parent links always point at an older (smaller) entity, so every parent
//! chain is finite and a pass that walks entities in id order sees each
//! parent before all of its children.

use crate::components::{Controls, Direction, Entity, Extension, Parent, Snake, Tile, Type};
use vstd::prelude::*;

verus! {

/// All per-entity attached data, one table per kind. Tables always have the
/// same length: the number of entities that exist.
pub struct World {
    pub tiles: Vec<Option<Tile>>,
    pub directions: Vec<Option<Direction>>,
    pub snakes: Vec<Option<Snake>>,
    pub extensions: Vec<Option<Extension>>,
    pub types: Vec<Option<Type>>,
    pub parents: Vec<Option<Parent>>,
    pub controls: Vec<Option<Controls>>,
}

impl World {
    /// The number of entities that exist.
    pub open spec fn spec_len(self) -> int {
        self.tiles@.len() as int
    }

    /// Every table covers every entity, and every parent link points at an
    /// older entity.
    pub open spec fn wf(self) -> bool {
        &&& self.directions@.len() == self.tiles@.len()
        &&& self.snakes@.len() == self.tiles@.len()
        &&& self.extensions@.len() == self.tiles@.len()
        &&& self.types@.len() == self.tiles@.len()
        &&& self.parents@.len() == self.tiles@.len()
        &&& self.controls@.len() == self.tiles@.len()
        &&& forall|e: int|
            0 <= e < self.spec_len() && self.parents@[e] is Some ==> (self.parents@[e]->0).0 < e
    }

    pub open spec fn has_tile(self, e: int) -> bool {
        0 <= e < self.spec_len() && self.tiles@[e] is Some
    }

    pub open spec fn tile(self, e: int) -> Tile {
        self.tiles@[e]->0
    }

    pub open spec fn has_dir(self, e: int) -> bool {
        0 <= e < self.spec_len() && self.directions@[e] is Some
    }

    pub open spec fn dir(self, e: int) -> Direction {
        self.directions@[e]->0
    }

    pub open spec fn has_snake(self, e: int) -> bool {
        0 <= e < self.spec_len() && self.snakes@[e] is Some
    }

    pub open spec fn snake(self, e: int) -> Snake {
        self.snakes@[e]->0
    }

    pub open spec fn has_ext(self, e: int) -> bool {
        0 <= e < self.spec_len() && self.extensions@[e] is Some
    }

    /// How many tail segments entity `e` is still owed.
    pub open spec fn ext(self, e: int) -> u16 {
        (self.extensions@[e]->0).0
    }

    pub open spec fn has_kind(self, e: int) -> bool {
        0 <= e < self.spec_len() && self.types@[e] is Some
    }

    pub open spec fn kind(self, e: int) -> Type {
        self.types@[e]->0
    }

    pub open spec fn has_parent(self, e: int) -> bool {
        0 <= e < self.spec_len() && self.parents@[e] is Some
    }

    /// The entity immediately ahead of `e` in its chain.
    pub open spec fn parent(self, e: int) -> int {
        (self.parents@[e]->0).0 as int
    }

    pub open spec fn has_controls(self, e: int) -> bool {
        0 <= e < self.spec_len() && self.controls@[e] is Some
    }

    pub open spec fn ctrl(self, e: int) -> Controls {
        self.controls@[e]->0
    }

    /// An empty world: no entities at all.
    pub fn new() -> (w: World)
        ensures
            w.wf(),
            w.spec_len() == 0,
    {
        World {
            tiles: Vec::new(),
            directions: Vec::new(),
            snakes: Vec::new(),
            extensions: Vec::new(),
            types: Vec::new(),
            parents: Vec::new(),
            controls: Vec::new(),
        }
    }

    /// The number of entities that exist.
    pub fn len(&self) -> (n: usize)
        ensures
            n == self.spec_len(),
    {
        self.tiles.len()
    }

    /// Destroys every entity.
    pub fn clear(&mut self)
        ensures
            final(self).wf(),
            final(self).spec_len() == 0,
    {
        self.tiles.clear();
        self.directions.clear();
        self.snakes.clear();
        self.extensions.clear();
        self.types.clear();
        self.parents.clear();
        self.controls.clear();
    }

    /// Creates one entity carrying exactly the given data, and returns its
    /// id. Every existing entity keeps its data unchanged.
    pub fn spawn(
        &mut self,
        tile: Option<Tile>,
        direction: Option<Direction>,
        snake: Option<Snake>,
        extension: Option<Extension>,
        kind: Option<Type>,
        parent: Option<Parent>,
        controls: Option<Controls>,
    ) -> (e: Entity)
        requires
            old(self).wf(),
            old(self).spec_len() < usize::MAX,
            parent is Some ==> (parent->0).0 < old(self).spec_len(),
        ensures
            final(self).wf(),
            e == old(self).spec_len(),
            final(self).spec_len() == old(self).spec_len() + 1,
            final(self).tiles@ == old(self).tiles@.push(tile),
            final(self).directions@ == old(self).directions@.push(direction),
            final(self).snakes@ == old(self).snakes@.push(snake),
            final(self).extensions@ == old(self).extensions@.push(extension),
            final(self).types@ == old(self).types@.push(kind),
            final(self).parents@ == old(self).parents@.push(parent),
            final(self).controls@ == old(self).controls@.push(controls),
    {
        let e = self.tiles.len();
        self.tiles.push(tile);
        self.directions.push(direction);
        self.snakes.push(snake);
        self.extensions.push(extension);
        self.types.push(kind);
        self.parents.push(parent);
        self.controls.push(controls);
        e
    }
}

} // verus!
