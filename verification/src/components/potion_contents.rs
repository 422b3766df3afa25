//! The `minecraft:potion_contents` item component.

use vstd::prelude::*;
use crate::holder::RegistryRef;

verus! {

/// A registered base potion plus optional custom color, effects and name.
///
/// `E` is the type of one custom effect.
#[derive(Debug, Clone, PartialEq)]
pub struct PotionContents<E> {
    potion: Option<RegistryRef>,
    custom_color: Option<i32>,
    custom_effects: Vec<E>,
    custom_name: Option<String>,
}

impl<E> PotionContents<E> {
    /// The base potion.
    pub closed spec fn spec_potion(self) -> Option<RegistryRef> {
        self.potion
    }

    /// The custom color.
    pub closed spec fn spec_custom_color(self) -> Option<i32> {
        self.custom_color
    }

    /// The custom effects, in order.
    pub closed spec fn spec_custom_effects(self) -> Seq<E> {
        self.custom_effects@
    }

    /// The custom name.
    pub closed spec fn spec_custom_name(self) -> Option<Seq<char>> {
        match self.custom_name {
            Some(n) => Some(n@),
            None => None,
        }
    }

    /// No potion and nothing custom.
    pub fn empty() -> (res: Self)
        ensures
            res.spec_potion() is None,
            res.spec_custom_color() is None,
            res.spec_custom_effects() == Seq::<E>::empty(),
            res.spec_custom_name() is None,
    {
        PotionContents { potion: None, custom_color: None, custom_effects: Vec::new(), custom_name: None }
    }

    /// Contents with the given parts.
    pub fn new(
        potion: Option<RegistryRef>,
        custom_color: Option<i32>,
        custom_effects: Vec<E>,
        custom_name: Option<String>,
    ) -> (res: Self)
        ensures
            res.spec_potion() == potion,
            res.spec_custom_color() == custom_color,
            res.spec_custom_effects() == custom_effects@,
            res.spec_custom_name() == (match custom_name {
                Some(n) => Some(n@),
                None => None::<Seq<char>>,
            }),
    {
        PotionContents { potion, custom_color, custom_effects, custom_name }
    }

    /// The base potion.
    pub fn potion(&self) -> (res: Option<RegistryRef>)
        ensures
            res == self.spec_potion(),
    {
        match &self.potion {
            Some(p) => Some(p.duplicate()),
            None => None,
        }
    }

    /// The custom color.
    pub fn custom_color(&self) -> (res: Option<i32>)
        ensures
            res == self.spec_custom_color(),
    {
        self.custom_color
    }

    /// The custom effects, in order.
    pub fn custom_effects(&self) -> (res: &[E])
        ensures
            res@ == self.spec_custom_effects(),
    {
        self.custom_effects.as_slice()
    }

    /// The custom name.
    pub fn custom_name(&self) -> (res: Option<&str>)
        ensures
            match res {
                Some(n) => self.spec_custom_name() == Some(n@),
                None => self.spec_custom_name() is None,
            },
    {
        match &self.custom_name {
            Some(n) => Some(n.as_str()),
            None => None,
        }
    }
}

impl<E> Default for PotionContents<E> {
    fn default() -> (res: Self)
        ensures
            res.spec_potion() is None,
            res.spec_custom_color() is None,
            res.spec_custom_effects() == Seq::<E>::empty(),
            res.spec_custom_name() is None,
    {
        PotionContents::empty()
    }
}

} // verus!
