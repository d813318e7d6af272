//! Plain kinds used by shapes and templates, and grouping of tattvas.
use vstd::prelude::*;

use crate::animation::TattvaId;

verus! {

/// Colour scheme of the Murali logo mark.
#[derive(Debug, Clone, Copy, PartialEq, Eq, Structural)]
pub enum MuraliLogoPalette {
    Light,
    Dark,
}

/// How a path decides which regions are inside when filled.
#[derive(Debug, Clone, Copy, PartialEq, Eq, Structural)]
pub enum PathFillRule {
    NonZero,
    EvenOdd,
}

/// Ready-made themed diagrams for explaining AI models.
pub struct AiUnderTheHoodTemplates;

/// A set of tattvas laid out and moved together.
#[derive(Debug, Clone)]
pub struct Group {
    pub items: Vec<TattvaId>,
}

impl Group {
    pub fn new(items: Vec<TattvaId>) -> (g: Self)
        ensures
            g.items == items,
    {
        Group { items }
    }
}

} // verus!
