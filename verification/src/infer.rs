//! Type inference: from a schema node to the type that stands for it.

use crate::error::ExpandError;
use crate::expander::Expander;
use crate::resolve::{ref_type_name, resolution};
use crate::schema::{
    members, nodes, opt_literal, opt_literals, opt_node, opt_nodes, opt_text, schema_eq, Literal,
    LiteralModel, Schema, SchemaModel, SimpleTypes,
};
use crate::text::str_eq;
use vstd::prelude::*;

verus! {

/// The type inferred for a schema node.
#[derive(Debug)]
pub struct FieldType {
    /// The type, as it is written.
    pub typ: String,
    /// Whether a value of the type can be made from nothing: the field
    /// then needs no `Option` to be left out.
    pub default: bool,
    /// Whether the type is an `Option` put around what was inferred.
    pub optional: bool,
    /// Whether a `OneOrMany` occurs in the type.
    pub one_or_many: bool,
}

/// The model of a `FieldType`.
pub struct FieldTypeModel {
    pub typ: Seq<char>,
    pub default: bool,
    pub optional: bool,
    pub one_or_many: bool,
}

impl View for FieldType {
    type V = FieldTypeModel;

    open spec fn view(&self) -> FieldTypeModel {
        FieldTypeModel {
            typ: self.typ@,
            default: self.default,
            optional: self.optional,
            one_or_many: self.one_or_many,
        }
    }
}

impl FieldType {
    /// The type written `typ`, with no default and no wrapper.
    pub fn from(typ: String) -> (r: FieldType)
        ensures
            r@ == plain(typ@),
    {
        FieldType { typ, default: false, optional: false, one_or_many: false }
    }
}

/// What a `Result` that holds a field type is seen as.
pub open spec fn field_result(r: Result<FieldType, ExpandError>) -> Result<
    FieldTypeModel,
    ExpandError,
> {
    match r {
        Ok(t) => Ok(t@),
        Err(e) => Err(e),
    }
}

/// The type written `typ`, with no default and no wrapper.
pub open spec fn plain(typ: Seq<char>) -> FieldTypeModel {
    FieldTypeModel { typ, default: false, optional: false, one_or_many: false }
}

/// The type for a node whose shape is not modelled: any JSON value.
pub open spec fn opaque() -> FieldTypeModel {
    plain("serde_json::Value"@)
}

/// The generic type that `open` starts, applied to `inner`.
pub open spec fn applied(open: Seq<char>, inner: Seq<char>) -> Seq<char> {
    open + inner + ">"@
}

/// Whether `node`, resolved, is an array: its first declared kind is
/// `Array` and it has an element schema.
pub open spec fn is_list(node: SchemaModel) -> bool {
    node.type_.len() > 0 && node.type_[0] == SimpleTypes::Array && node.items.len() > 0
}

/// The type inferred for `node`, before any wrapping.
///
/// In this order: a reference gives the name of the type it refers to. An
/// `anyOf` of two, where the second resolves to an array of what the first
/// resolves to, gives a `OneOrMany` of the first; any other `anyOf` of two
/// gives the opaque type. A single declared kind gives the type of that
/// kind: a string (opaque where the node has an empty `enum`), an integer,
/// a boolean, a number, a map for an object with a schema for its
/// additional properties, a list for an array. Everything else gives the
/// opaque type.
pub open spec fn inferred(root: SchemaModel, root_name: Option<Seq<char>>, node: SchemaModel)
    -> Result<FieldTypeModel, ExpandError>
    decreases node,
{
    if node.ref_ is Some {
        match ref_type_name(root_name, node.ref_->0) {
            Ok(name) => Ok(plain(name)),
            Err(e) => Err(e),
        }
    } else if node.any_of is Some && node.any_of->0.len() == 2 {
        let branches = node.any_of->0;
        match resolution(root, branches[0]) {
            Err(e) => Err(e),
            Ok(simple) => match resolution(root, branches[1]) {
                Err(e) => Err(e),
                Ok(array) => if is_list(array) {
                    match resolution(root, array.items[0]) {
                        Err(e) => Err(e),
                        Ok(item) => if simple == item {
                            match inferred(root, root_name, branches[0]) {
                                Err(e) => Err(e),
                                Ok(inner) => Ok(
                                    FieldTypeModel {
                                        typ: applied("OneOrMany<"@, inner.typ),
                                        default: true,
                                        optional: false,
                                        one_or_many: true,
                                    },
                                ),
                            }
                        } else {
                            Ok(opaque())
                        },
                    }
                } else {
                    Ok(opaque())
                },
            },
        }
    } else if node.type_.len() == 1 {
        match node.type_[0] {
            SimpleTypes::String => if node.enum_ is Some && node.enum_->0.len() == 0 {
                Ok(opaque())
            } else {
                Ok(plain("String"@))
            },
            SimpleTypes::Integer => Ok(plain("i64"@)),
            SimpleTypes::Boolean => Ok(plain("bool"@)),
            SimpleTypes::Number => Ok(plain("f64"@)),
            SimpleTypes::Object => if node.additional_properties is Some {
                match inferred(root, root_name, *node.additional_properties->0) {
                    Err(e) => Err(e),
                    Ok(inner) => Ok(
                        FieldTypeModel {
                            typ: applied("::std::collections::BTreeMap<String, "@, inner.typ),
                            default: node.default == Some(LiteralModel::Object(Seq::empty())),
                            optional: false,
                            one_or_many: inner.one_or_many,
                        },
                    ),
                }
            } else {
                Ok(opaque())
            },
            SimpleTypes::Array => if node.items.len() > 0 {
                match inferred(root, root_name, node.items[0]) {
                    Err(e) => Err(e),
                    Ok(inner) => Ok(
                        FieldTypeModel {
                            typ: applied("Vec<"@, inner.typ),
                            default: false,
                            optional: false,
                            one_or_many: inner.one_or_many,
                        },
                    ),
                }
            } else {
                Ok(plain(applied("Vec<"@, "serde_json::Value"@)))
            },
            SimpleTypes::Null => Ok(opaque()),
        }
    } else {
        Ok(opaque())
    }
}

/// `typ` behind a `Box` where it is the type being declared, else `typ`.
pub open spec fn indirected(enclosing: Seq<char>, typ: Seq<char>) -> Seq<char> {
    if enclosing == typ {
        applied("Box<"@, typ)
    } else {
        typ
    }
}

/// The type of a field of the type `enclosing`.
///
/// What is inferred for `node` goes behind a `Box` where it is `enclosing`
/// itself, and then into an `Option` where the field is not required and
/// the type has no default.
pub open spec fn field_type(
    root: SchemaModel,
    root_name: Option<Seq<char>>,
    enclosing: Seq<char>,
    required: bool,
    node: SchemaModel,
) -> Result<FieldTypeModel, ExpandError> {
    match inferred(root, root_name, node) {
        Err(e) => Err(e),
        Ok(inner) => {
            let direct = indirected(enclosing, inner.typ);
            let optional = !required && !inner.default;
            Ok(
                FieldTypeModel {
                    typ: if optional {
                        applied("Option<"@, direct)
                    } else {
                        direct
                    },
                    default: inner.default,
                    optional,
                    one_or_many: inner.one_or_many,
                },
            )
        },
    }
}

/// A field gets an `Option` exactly if it is not required and its type has
/// no default. So a required field never gets one: its type is what was
/// inferred, behind a `Box` at most.
pub proof fn lemma_optional_wrapping(
    root: SchemaModel,
    root_name: Option<Seq<char>>,
    enclosing: Seq<char>,
    required: bool,
    node: SchemaModel,
)
    ensures
        field_type(root, root_name, enclosing, required, node) matches Ok(t) ==> {
            &&& inferred(root, root_name, node) matches Ok(inner)
            &&& t.default == inner.default
            &&& t.optional == (!required && !inner.default)
            &&& t.optional ==> t.typ == applied("Option<"@, indirected(enclosing, inner.typ))
            &&& !t.optional ==> t.typ == indirected(enclosing, inner.typ)
        },
{
}

/// A field whose type is the type being declared always goes behind a
/// `Box`.
pub proof fn lemma_self_reference_is_boxed(
    root: SchemaModel,
    root_name: Option<Seq<char>>,
    enclosing: Seq<char>,
    required: bool,
    node: SchemaModel,
)
    requires
        inferred(root, root_name, node) matches Ok(inner) && inner.typ == enclosing,
    ensures
        field_type(root, root_name, enclosing, required, node) matches Ok(t) && (t.typ == applied(
            "Box<"@,
            enclosing,
        ) || t.typ == applied("Option<"@, applied("Box<"@, enclosing))),
{
}

/// `open`, `inner` and a closing angle bracket, one after another.
pub fn apply(open: &str, inner: &str) -> (r: String)
    ensures
        r@ == applied(open@, inner@),
{
    let mut r = String::from_str(open);
    r.append(inner);
    r.append(">");
    r
}

impl<'r> Expander<'r> {
    /// Whether `self` is `before` after a call that gave `r`: the same
    /// document, and the helper type needed if it was needed before or `r`
    /// holds a `OneOrMany`. A call that fails changes nothing.
    pub open spec fn follows(
        &self,
        before: &Expander<'r>,
        r: Result<FieldTypeModel, ExpandError>,
    ) -> bool {
        &&& self.same_document(before)
        &&& self.needs_one_or_many == (before.needs_one_or_many || (r matches Ok(t)
            && t.one_or_many))
    }

    /// The type of a field of the type `enclosing` whose schema is `typ`.
    pub fn expand_type(&mut self, enclosing: &str, required: bool, typ: &Schema) -> (r: Result<
        FieldType,
        ExpandError,
    >)
        ensures
            field_result(r) == field_type(
                old(self).root@,
                old(self).name(),
                enclosing@,
                required,
                typ@,
            ),
            final(self).follows(old(self), field_result(r)),
    {
        let mut result = match self.expand_type_(typ) {
            Ok(inner) => inner,
            Err(e) => {
                return Err(e);
            },
        };
        if str_eq(enclosing, result.typ.as_str()) {
            result.typ = apply("Box<", result.typ.as_str());
        }
        if !required && !result.default {
            result.typ = apply("Option<", result.typ.as_str());
            result.optional = true;
        }
        Ok(result)
    }

    /// The type inferred for the schema `typ`, before any wrapping.
    pub fn expand_type_(&mut self, typ: &Schema) -> (r: Result<FieldType, ExpandError>)
        ensures
            field_result(r) == inferred(old(self).root@, old(self).name(), typ@),
            final(self).follows(old(self), field_result(r)),
        decreases typ,
    {
        proof {
            assert(typ@.ref_ == opt_text(typ.ref_));
            assert(typ@.any_of == opt_nodes(typ.any_of));
            assert(typ@.items == nodes(typ.items));
            assert(typ@.enum_ == opt_literals(typ.enum_));
            assert(typ@.default == opt_literal(typ.default));
            assert(typ@.additional_properties == opt_node(typ.additional_properties));
        }
        if let Some(reference) = &typ.ref_ {
            return match self.type_ref(reference.as_str()) {
                Ok(name) => Ok(FieldType::from(name)),
                Err(e) => Err(e),
            };
        }
        if let Some(branches) = &typ.any_of {
            if branches.len() == 2 {
                let simple = match self.schema(&branches[0]) {
                    Ok(node) => node,
                    Err(e) => {
                        return Err(e);
                    },
                };
                let array = match self.schema(&branches[1]) {
                    Ok(node) => node,
                    Err(e) => {
                        return Err(e);
                    },
                };
                let list = array.get();
                assert(list@.items == nodes(list.items));
                if list.type_.len() > 0 && *list.type_.get(0) == SimpleTypes::Array
                    && list.items.len() > 0 {
                    let item = match self.schema(&list.items[0]) {
                        Ok(node) => node,
                        Err(e) => {
                            return Err(e);
                        },
                    };
                    if schema_eq(simple.get(), item.get()) {
                        let inner = match self.expand_type_(&branches[0]) {
                            Ok(inner) => inner,
                            Err(e) => {
                                return Err(e);
                            },
                        };
                        self.needs_one_or_many = true;
                        return Ok(
                            FieldType {
                                typ: apply("OneOrMany<", inner.typ.as_str()),
                                default: true,
                                optional: false,
                                one_or_many: true,
                            },
                        );
                    }
                }
                return Ok(FieldType::from(String::from_str("serde_json::Value")));
            }
        }
        if typ.type_.len() != 1 {
            return Ok(FieldType::from(String::from_str("serde_json::Value")));
        }
        match *typ.type_.get(0) {
            SimpleTypes::String => {
                let any_string = match &typ.enum_ {
                    Some(values) => values.len() == 0,
                    None => false,
                };
                if any_string {
                    Ok(FieldType::from(String::from_str("serde_json::Value")))
                } else {
                    Ok(FieldType::from(String::from_str("String")))
                }
            },
            SimpleTypes::Integer => Ok(FieldType::from(String::from_str("i64"))),
            SimpleTypes::Boolean => Ok(FieldType::from(String::from_str("bool"))),
            SimpleTypes::Number => Ok(FieldType::from(String::from_str("f64"))),
            SimpleTypes::Object => {
                match &typ.additional_properties {
                    Some(values) => {
                        let inner = match self.expand_type_(&**values) {
                            Ok(inner) => inner,
                            Err(e) => {
                                return Err(e);
                            },
                        };
                        let default = match &typ.default {
                            Some(Literal::Object(entries)) => {
                                assert(entries@.len() == 0 ==> members(*entries) =~= Seq::empty());
                                assert(entries@.len() > 0 ==> members(*entries).len() > 0);
                                entries.len() == 0
                            },
                            _ => false,
                        };
                        Ok(
                            FieldType {
                                typ: apply(
                                    "::std::collections::BTreeMap<String, ",
                                    inner.typ.as_str(),
                                ),
                                default,
                                optional: false,
                                one_or_many: inner.one_or_many,
                            },
                        )
                    },
                    None => Ok(FieldType::from(String::from_str("serde_json::Value"))),
                }
            },
            SimpleTypes::Array => {
                if typ.items.len() > 0 {
                    let inner = match self.expand_type_(&typ.items[0]) {
                        Ok(inner) => inner,
                        Err(e) => {
                            return Err(e);
                        },
                    };
                    Ok(
                        FieldType {
                            typ: apply("Vec<", inner.typ.as_str()),
                            default: false,
                            optional: false,
                            one_or_many: inner.one_or_many,
                        },
                    )
                } else {
                    Ok(FieldType::from(apply("Vec<", "serde_json::Value")))
                }
            },
            SimpleTypes::Null => Ok(FieldType::from(String::from_str("serde_json::Value"))),
        }
    }
}

} // verus!
