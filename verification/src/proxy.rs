//! Typed views over well-known fields of a decoded save-file tree.
//!
//! Navigation is tolerant: an absent key or a wrong variant yields nothing,
//! never a failure.

use crate::model::{compound_lookup, TagModel};
use crate::tag::{view_tags, Tag};
use vstd::prelude::*;

verus! {

/// A typed view wrapping one node of a decoded tag tree.
pub trait TagProxy<'a>: Sized {
    /// The abstract value of the wrapped node.
    spec fn model(&self) -> TagModel;

    /// Wraps a node.
    fn from_tag(tag: &'a Tag) -> (r: Self)
        ensures
            r.model() == tag@,
    ;

    /// The wrapped node.
    fn as_tag(&self) -> (r: &'a Tag)
        ensures
            r@ == self.model(),
    ;
}

/// The root of a decoded save-file tree.
pub struct Level {
    tag: Tag,
}

impl View for Level {
    type V = TagModel;

    closed spec fn view(&self) -> TagModel {
        self.tag@
    }
}

impl Level {
    /// Wraps a decoded root tag.
    pub fn from_tag(tag: Tag) -> (r: Level)
        ensures
            r@ == tag@,
    {
        Level { tag }
    }

    /// The wrapped root tag.
    pub fn as_tag(&self) -> (r: &Tag)
        ensures
            r@ == self@,
    {
        &self.tag
    }

    /// The `Data` compound of the root, when present.
    pub fn data<'a>(&'a self) -> (r: Option<Data<'a>>)
        ensures
            match r {
                Some(d) => compound_lookup(self@, "Data"@) == Some(d.model()),
                None => compound_lookup(self@, "Data"@) is None,
            },
    {
        let key = String::from_str("Data");
        match self.tag.compound_get(&key) {
            Some(t) => Some(Data::from_tag(t)),
            None => None,
        }
    }
}

/// A view over the `Data` compound of a save file.
pub struct Data<'a> {
    tag: &'a Tag,
}

impl<'a> TagProxy<'a> for Data<'a> {
    closed spec fn model(&self) -> TagModel {
        self.tag@
    }

    fn from_tag(tag: &'a Tag) -> (r: Data<'a>) {
        Data { tag }
    }

    fn as_tag(&self) -> (r: &'a Tag) {
        self.tag
    }
}

impl<'a> Data<'a> {
    /// The `allowCommands` flag, when present as a `Byte` field.
    pub fn allow_commands(&self) -> (r: Option<u8>)
        ensures
            r == (match compound_lookup(self.model(), "allowCommands"@) {
                Some(TagModel::Byte(b)) => Some(b),
                _ => None::<u8>,
            }),
    {
        let key = String::from_str("allowCommands");
        match self.tag.compound_get(&key) {
            Some(t) => t.byte(),
            None => None,
        }
    }

    /// The `raining` flag, when present as a `Byte` field.
    pub fn raining(&self) -> (r: Option<u8>)
        ensures
            r == (match compound_lookup(self.model(), "raining"@) {
                Some(TagModel::Byte(b)) => Some(b),
                _ => None::<u8>,
            }),
    {
        let key = String::from_str("raining");
        match self.tag.compound_get(&key) {
            Some(t) => t.byte(),
            None => None,
        }
    }

    /// The `ServerBrands` list, when present as a `List` field.
    pub fn server_brands(&self) -> (r: Option<&'a Vec<Tag>>)
        ensures
            match r {
                Some(v) => compound_lookup(self.model(), "ServerBrands"@) == Some(
                    TagModel::List(view_tags(v@)),
                ),
                None => (match compound_lookup(self.model(), "ServerBrands"@) {
                    Some(m) => !(m is List),
                    None => true,
                }),
            },
    {
        let key = String::from_str("ServerBrands");
        match self.tag.compound_get(&key) {
            Some(t) => t.list(),
            None => None,
        }
    }
}

} // verus!
