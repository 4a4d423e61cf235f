use vstd::prelude::*;

use crate::error::Error;

verus! {

// Resource management decisions: the fixed bind-group-layout scopes, the
// registry that guards them, and the one-entry-per-type material cache.

/// The three bind-group scopes, in the order every pipeline layout binds
/// them: per-frame camera state, per-bucket-type style state, per-tile
/// transform state.
#[derive(Clone, Copy, PartialEq, Eq, Structural, Debug)]
pub enum BindGroupScope {
    Global,
    Material,
    Model,
}

/// The slot a scope occupies in every pipeline layout.
pub open spec fn scope_index(s: BindGroupScope) -> int {
    match s {
        BindGroupScope::Global => 0,
        BindGroupScope::Material => 1,
        BindGroupScope::Model => 2,
    }
}

impl BindGroupScope {
    /// The slot this scope occupies in every pipeline layout: Global, then
    /// Material, then Model.
    pub fn value(&self) -> (v: usize)
        ensures
            v == scope_index(*self),
    {
        match self {
            BindGroupScope::Global => 0,
            BindGroupScope::Material => 1,
            BindGroupScope::Model => 2,
        }
    }
}

/// Which bind-group layouts have been registered. A bind group may only be
/// created for a registered scope.
#[derive(Clone, Copy, PartialEq, Eq, Structural, Debug)]
pub struct LayoutRegistry {
    pub global: bool,
    pub material: bool,
    pub model: bool,
}

/// Whether a scope's layout is registered.
pub open spec fn registered_spec(r: LayoutRegistry, s: BindGroupScope) -> bool {
    match s {
        BindGroupScope::Global => r.global,
        BindGroupScope::Material => r.material,
        BindGroupScope::Model => r.model,
    }
}

impl LayoutRegistry {
    /// A registry with no layout registered.
    pub fn new() -> (r: LayoutRegistry)
        ensures
            !r.global && !r.material && !r.model,
    {
        LayoutRegistry { global: false, material: false, model: false }
    }

    /// Register a scope's layout; the other scopes keep their state.
    pub fn register(&mut self, scope: BindGroupScope)
        ensures
            registered_spec(*final(self), scope),
            scope != BindGroupScope::Global ==> final(self).global == old(self).global,
            scope != BindGroupScope::Material ==> final(self).material == old(self).material,
            scope != BindGroupScope::Model ==> final(self).model == old(self).model,
    {
        match scope {
            BindGroupScope::Global => {
                self.global = true;
            },
            BindGroupScope::Material => {
                self.material = true;
            },
            BindGroupScope::Model => {
                self.model = true;
            },
        }
    }

    /// Whether a scope's layout is registered.
    pub fn is_registered(&self, scope: BindGroupScope) -> (r: bool)
        ensures
            r == registered_spec(*self, scope),
    {
        match scope {
            BindGroupScope::Global => self.global,
            BindGroupScope::Material => self.material,
            BindGroupScope::Model => self.model,
        }
    }

    /// Demand that a scope's layout is registered: creating a bind group for
    /// an unregistered scope is a startup programming error.
    pub fn require_registered(&self, scope: BindGroupScope) -> (r: Result<(), Error>)
        ensures
            r is Ok <==> registered_spec(*self, scope),
            r is Err ==> r.unwrap_err() == Error::UnregisteredBindGroupScope,
    {
        if self.is_registered(scope) {
            Ok(())
        } else {
            Err(Error::UnregisteredBindGroupScope)
        }
    }
}

/// The tile manager: its construction registers the per-tile Model scope, so
/// tiles can create their transform bind groups.
pub struct TileManager;

impl TileManager {
    /// Register the Model scope and hand back the manager.
    pub fn new(registry: &mut LayoutRegistry) -> (r: TileManager)
        ensures
            registered_spec(*final(registry), BindGroupScope::Model),
            final(registry).global == old(registry).global,
            final(registry).material == old(registry).material,
    {
        registry.register(BindGroupScope::Model);
        TileManager
    }
}

/// The material kinds, one per bucket type.
#[derive(Clone, Copy, PartialEq, Eq, Structural, Debug, Hash)]
pub enum MaterialType {
    Fill,
    Line,
    Point,
}

/// The material cache: at most one material per type, built on first use,
/// never evicted, shared read-only afterwards.
pub struct MaterialManager<M> {
    pub fill: Option<M>,
    pub line: Option<M>,
    pub point: Option<M>,
}

/// The cache entry of a material type.
pub open spec fn cache_entry<M>(c: MaterialManager<M>, t: MaterialType) -> Option<M> {
    match t {
        MaterialType::Fill => c.fill,
        MaterialType::Line => c.line,
        MaterialType::Point => c.point,
    }
}

impl<M> MaterialManager<M> {
    /// An empty cache.
    pub fn new() -> (r: MaterialManager<M>)
        ensures
            cache_entry(r, MaterialType::Fill) is None,
            cache_entry(r, MaterialType::Line) is None,
            cache_entry(r, MaterialType::Point) is None,
    {
        MaterialManager { fill: None, line: None, point: None }
    }

    /// The cached material of a type, if one was built.
    pub fn get(&self, t: MaterialType) -> (r: Option<&M>)
        ensures
            match r {
                Some(m) => cache_entry(*self, t) == Some(*m),
                None => cache_entry(*self, t) is None,
            },
    {
        match t {
            MaterialType::Fill => self.fill.as_ref(),
            MaterialType::Line => self.line.as_ref(),
            MaterialType::Point => self.point.as_ref(),
        }
    }

    /// Store the material built for a type; the other entries stay.
    pub fn insert(&mut self, t: MaterialType, m: M)
        ensures
            cache_entry(*final(self), t) == Some(m),
            forall|u: MaterialType|
                u != t ==> cache_entry(*final(self), u) == cache_entry(*old(self), u),
    {
        match t {
            MaterialType::Fill => {
                self.fill = Some(m);
            },
            MaterialType::Line => {
                self.line = Some(m);
            },
            MaterialType::Point => {
                self.point = Some(m);
            },
        }
    }
}

} // verus!
