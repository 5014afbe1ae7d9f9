//! The expander: the root of the document being expanded, the name given
//! to it, and whether anything expanded so far needs the helper type.

use crate::schema::{clone_schema, Schema, SchemaModel};
use vstd::prelude::*;

verus! {

/// One pass over a schema document.
pub struct Expander<'r> {
    /// The name of the type for the root, if the root is to get one.
    pub root_name: Option<&'r str>,
    /// The root of the document: references are resolved against it.
    pub root: &'r Schema,
    /// Whether a type expanded so far is a `OneOrMany`.
    pub needs_one_or_many: bool,
}

/// The view of an optional string slice.
pub open spec fn opt_str(o: Option<&str>) -> Option<Seq<char>> {
    match o {
        Some(s) => Some(s@),
        None => None,
    }
}

impl<'r> Expander<'r> {
    /// An expander for the document `root` that has expanded nothing yet.
    pub fn new(root_name: Option<&'r str>, root: &'r Schema) -> (expander: Expander<'r>)
        ensures
            expander.root_name == root_name,
            expander.root == root,
            !expander.needs_one_or_many,
    {
        Expander { root_name, root, needs_one_or_many: false }
    }

    /// The name given to the root, as characters.
    pub open spec fn name(&self) -> Option<Seq<char>> {
        opt_str(self.root_name)
    }

    /// Whether `other` works on the same document under the same name.
    pub open spec fn same_document(&self, other: &Expander<'r>) -> bool {
        self.root == other.root && self.root_name == other.root_name
    }
}

/// A schema node ready to be read: the node itself, or the merge of the
/// components of its `allOf`.
pub enum Resolved<'a> {
    /// A node of the document, as it stands there.
    Borrowed(&'a Schema),
    /// A node made by merging.
    Owned(Schema),
}

impl<'a> View for Resolved<'a> {
    type V = SchemaModel;

    open spec fn view(&self) -> SchemaModel {
        match self {
            Resolved::Borrowed(node) => (**node).view(),
            Resolved::Owned(node) => node.view(),
        }
    }
}

impl<'a> Resolved<'a> {
    /// The node to read.
    pub fn get(&self) -> (node: &Schema)
        ensures
            node@ == self@,
    {
        match self {
            Resolved::Borrowed(node) => node,
            Resolved::Owned(node) => node,
        }
    }

    /// The node as a value of its own: a copy where it was borrowed.
    pub fn into_owned(self) -> (node: Schema)
        ensures
            node@ == self@,
    {
        match self {
            Resolved::Borrowed(node) => clone_schema(node),
            Resolved::Owned(node) => node,
        }
    }
}

} // verus!
