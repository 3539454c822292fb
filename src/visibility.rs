use vstd::prelude::*;

verus! {

/// Marker for the plugin that keeps [`InheritedVisibility`] in step with
/// [`Visibility`] along the entity hierarchy.
pub struct VisibilityPlugin;

/// User indication of whether an entity is visible. Propagates down the entity
/// hierarchy: an entity set to `Inherited` takes the visibility of its parent.
#[derive(Clone, Copy, Debug, PartialEq, Eq, Structural)]
pub enum Visibility {
    /// Takes the parent's visibility; a root-level entity is visible.
    Inherited,
    /// Unconditionally hidden.
    Hidden,
    /// Unconditionally visible, whatever its parent.
    Visible,
}

impl Visibility {
    /// `Inherited` when `inherited` holds, `Hidden` otherwise.
    pub fn inherited_or_hidden(inherited: bool) -> (r: Self)
        ensures
            r == (if inherited { Visibility::Inherited } else { Visibility::Hidden }),
    {
        match inherited {
            false => Visibility::Hidden,
            true => Visibility::Inherited,
        }
    }

    /// Whether an entity with this setting is visible, given whether its parent is
    /// visible (`None` for an entity without a parent, or whose parent has no
    /// visibility).
    pub open spec fn resolve_spec(self, parent_visible: Option<bool>) -> bool {
        match self {
            Visibility::Visible => true,
            Visibility::Hidden => false,
            Visibility::Inherited => match parent_visible {
                Some(v) => v,
                None => true,
            },
        }
    }

    /// Computes the visibility in the hierarchy of an entity with this setting.
    pub fn resolve(self, parent_visible: Option<bool>) -> (r: bool)
        ensures
            r == self.resolve_spec(parent_visible),
    {
        match self {
            Visibility::Visible => true,
            Visibility::Hidden => false,
            Visibility::Inherited => match parent_visible {
                Some(v) => v,
                None => true,
            },
        }
    }
}

impl Default for Visibility {
    fn default() -> (r: Self)
        ensures
            r == Visibility::Inherited,
    {
        Visibility::Inherited
    }
}

/// Whether an entity is visible in the hierarchy.
#[derive(Clone, Copy, Debug, PartialEq, Eq, Structural)]
pub struct InheritedVisibility(pub bool);

impl InheritedVisibility {
    /// Returns `true` if the entity is visible in the hierarchy.
    pub fn get(self) -> (r: bool)
        ensures
            r == self.0,
    {
        self.0
    }

    /// Stores `visible`, and reports whether the stored value changed: only then do
    /// the entity's children need to be visited again.
    pub fn update(&mut self, visible: bool) -> (changed: bool)
        ensures
            final(self).0 == visible,
            changed == (old(self).0 != visible),
    {
        let changed = self.0 != visible;
        self.0 = visible;
        changed
    }
}

impl Default for InheritedVisibility {
    fn default() -> (r: Self)
        ensures
            r.0 == false,
    {
        InheritedVisibility(false)
    }
}

} // verus!
