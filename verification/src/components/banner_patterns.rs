//! The `minecraft:banner_patterns` item component.

use vstd::prelude::*;
use crate::dye_color::DyeColor;
use crate::holder::RegistryHolder;

verus! {

/// One pattern and color layer on a banner or shield.
///
/// `V` is the value type of the banner pattern registry.
#[derive(Debug, Clone, PartialEq)]
pub struct BannerPatternLayer<V> {
    pattern: RegistryHolder<V>,
    color: DyeColor,
}

impl<V> BannerPatternLayer<V> {
    /// The pattern of the layer.
    pub closed spec fn spec_pattern(self) -> RegistryHolder<V> {
        self.pattern
    }

    /// The color of the layer.
    pub closed spec fn spec_color(self) -> DyeColor {
        self.color
    }

    /// A layer drawing `pattern` in `color`.
    pub fn new(pattern: RegistryHolder<V>, color: DyeColor) -> (res: Self)
        ensures
            res.spec_pattern() == pattern,
            res.spec_color() == color,
    {
        BannerPatternLayer { pattern, color }
    }

    /// The pattern of the layer.
    pub fn pattern(&self) -> (res: &RegistryHolder<V>)
        ensures
            *res == self.spec_pattern(),
    {
        &self.pattern
    }

    /// The color of the layer.
    pub fn color(&self) -> (res: DyeColor)
        ensures
            res == self.spec_color(),
    {
        self.color
    }
}

/// Banner pattern layers, bottom first.
#[derive(Debug, Clone, PartialEq)]
pub struct BannerPatternLayers<V> {
    layers: Vec<BannerPatternLayer<V>>,
}

impl<V> BannerPatternLayers<V> {
    /// The layers, bottom first.
    pub closed spec fn spec_layers(self) -> Seq<BannerPatternLayer<V>> {
        self.layers@
    }

    /// No layers.
    pub fn empty() -> (res: Self)
        ensures
            res.spec_layers() == Seq::<BannerPatternLayer<V>>::empty(),
    {
        BannerPatternLayers { layers: Vec::new() }
    }

    /// The given layers, bottom first.
    pub fn new(layers: Vec<BannerPatternLayer<V>>) -> (res: Self)
        ensures
            res.spec_layers() == layers@,
    {
        BannerPatternLayers { layers }
    }

    /// The layers, bottom first.
    pub fn layers(&self) -> (res: &[BannerPatternLayer<V>])
        ensures
            res@ == self.spec_layers(),
    {
        self.layers.as_slice()
    }
}

} // verus!
