//! Declarations: a struct, an enum or a type alias for each schema, and
//! the text of a whole document.

use crate::doc::{doc_comment, make_doc_comment, whitespace_mask};
use crate::error::ExpandError;
use crate::expander::Expander;
use crate::ident::{
    append_rename_attr, field, field_for, is_reserved, pascal_name, rename_attr, rename_keyword,
    reserved_text, to_type_name,
};
use crate::infer::{
    applied, field_type, inferred, lemma_self_reference_is_boxed, FieldTypeModel,
};
use crate::resolve::resolution;
use crate::schema::{
    entries, literals, opt_literals, opt_text, opt_texts, Literal, LiteralModel, Schema,
    SchemaModel,
};
use crate::text::{contains_text, str_eq};
use crate::tokens::{
    append_token, append_tokens, concat_tokens, join_all, join_separated, joined,
    lemma_joined_empty, new_tokens, separate_tokens, token_text, token_texts,
};
use vstd::prelude::*;

verus! {

/// The width of a line of output.
pub const LINE_LENGTH: usize = 100;

/// The width by which the members of a struct are indented.
pub const INDENT_LENGTH: usize = 4;

/// The definition of the helper type `OneOrMany`, written before the
/// declarations that use it.
pub const ONE_OR_MANY: &'static str = r#"
use std::ops::{Deref, DerefMut};

#[derive(Clone, PartialEq, Debug)]
pub enum OneOrMany<T> {
    One(Box<T>),
    Many(Vec<T>),
}

impl<T> Deref for OneOrMany<T> {
    type Target = [T];
    fn deref(&self) -> &[T] {
        match *self {
            OneOrMany::One(ref v) => unsafe { ::std::slice::from_raw_parts(&**v, 1) },
            OneOrMany::Many(ref v) => v,
        }
    }
}

impl<T> DerefMut for OneOrMany<T> {
    fn deref_mut(&mut self) -> &mut [T] {
        match *self {
            OneOrMany::One(ref mut v) => unsafe { ::std::slice::from_raw_parts_mut(&mut **v, 1) },
            OneOrMany::Many(ref mut v) => v,
        }
    }
}

impl<T> Default for OneOrMany<T> {
    fn default() -> OneOrMany<T> {
        OneOrMany::Many(Vec::new())
    }
}

impl<T> serde::Deserialize for OneOrMany<T>
    where T: serde::Deserialize
{
    fn deserialize<D>(deserializer: &mut D) -> Result<Self, D::Error>
        where D: serde::Deserializer
    {
        T::deserialize(deserializer)
            .map(|one| OneOrMany::One(Box::new(one)))
            .or_else(|_| Vec::<T>::deserialize(deserializer).map(OneOrMany::Many))
    }
}

impl<T> serde::Serialize for OneOrMany<T>
    where T: serde::Serialize
{
    fn serialize<S>(&self, serializer: &mut S) -> Result<(), S::Error>
        where S: serde::Serializer
    {
        match *self {
            OneOrMany::One(ref one) => one.serialize(serializer),
            OneOrMany::Many(ref many) => many.serialize(serializer),
        }
    }
}
"#;

/// A piece of output: its text, and whether a `OneOrMany` occurs in it.
pub struct Emitted {
    pub text: Seq<char>,
    pub one_or_many: bool,
}

/// Pieces of output, and whether a `OneOrMany` occurs in any of them.
pub struct EmittedList {
    pub texts: Seq<Seq<char>>,
    pub one_or_many: bool,
}

/// The members of a struct: their texts, whether every one of them is an
/// `Option`, and whether a `OneOrMany` occurs in any of them.
pub struct Members {
    pub texts: Seq<Seq<char>>,
    pub default: bool,
    pub one_or_many: bool,
}

/// The doc comment for an optional description: nothing where there is no
/// description.
pub open spec fn doc_text(description: Option<Seq<char>>, limit: nat) -> Seq<char> {
    match description {
        Some(text) => doc_comment(text, whitespace_mask(text), limit),
        None => Seq::empty(),
    }
}

/// Whether `node` lists `name` as required.
pub open spec fn is_required(node: SchemaModel, name: Seq<char>) -> bool {
    node.required is Some && node.required->0.contains(name)
}

/// One member of a struct: its doc comment, the attribute that lets it be
/// left out where its type has a default, its identifier, a colon and its
/// type.
pub open spec fn member_text(comment: Seq<char>, key: Seq<char>, t: FieldTypeModel) -> Seq<char> {
    let attr = if t.default {
        "#[serde(default)]"@
    } else {
        Seq::empty()
    };
    joined(joined(joined(joined(comment, attr), key), ":"@), t.typ)
}

/// The member that the property at position `k` of `owner` becomes in the
/// struct `enclosing`, with its type.
pub open spec fn member(
    root: SchemaModel,
    root_name: Option<Seq<char>>,
    enclosing: Seq<char>,
    owner: SchemaModel,
    k: int,
) -> Result<(Seq<char>, FieldTypeModel), ExpandError> {
    let name = owner.properties[k].0;
    let value = owner.properties[k].1;
    match field_for(name) {
        Err(e) => Err(e),
        Ok(key) => match field_type(root, root_name, enclosing, is_required(owner, name), value) {
            Err(e) => Err(e),
            Ok(t) => Ok(
                (
                    member_text(
                        doc_text(value.description, (LINE_LENGTH - INDENT_LENGTH) as nat),
                        key,
                        t,
                    ),
                    t,
                ),
            ),
        },
    }
}

/// The members for the first `n` properties of `owner`, in their order.
pub open spec fn members_upto(
    root: SchemaModel,
    root_name: Option<Seq<char>>,
    enclosing: Seq<char>,
    owner: SchemaModel,
    n: nat,
) -> Result<Members, ExpandError>
    decreases n,
{
    if n == 0 || n > owner.properties.len() {
        Ok(Members { texts: Seq::empty(), default: true, one_or_many: false })
    } else {
        match members_upto(root, root_name, enclosing, owner, (n - 1) as nat) {
            Err(e) => Err(e),
            Ok(before) => match member(root, root_name, enclosing, owner, n - 1) {
                Err(e) => Err(e),
                Ok((text, t)) => Ok(
                    Members {
                        texts: before.texts.push(text),
                        default: before.default && t.optional,
                        one_or_many: before.one_or_many || t.one_or_many,
                    },
                ),
            },
        }
    }
}

/// The members of the struct `enclosing` that `node` describes: one for
/// each property of `node` resolved.
pub open spec fn members_of(
    root: SchemaModel,
    root_name: Option<Seq<char>>,
    enclosing: Seq<char>,
    node: SchemaModel,
) -> Result<Members, ExpandError> {
    match resolution(root, node) {
        Err(e) => Err(e),
        Ok(owner) => members_upto(root, root_name, enclosing, owner, owner.properties.len()),
    }
}

/// The variant of an enum for the value `value`: its pascal case, made an
/// identifier where that is a reserved word, under a rename attribute where
/// pascal case changed the value.
pub open spec fn variant(value: LiteralModel) -> Result<Seq<char>, ExpandError> {
    match value {
        LiteralModel::Text(literal) => match pascal_name(literal) {
            Err(e) => Err(e),
            Ok(pascal) => {
                let name = if is_reserved(pascal) {
                    reserved_text(Seq::empty(), pascal)
                } else {
                    pascal
                };
                if pascal == literal {
                    Ok(name)
                } else {
                    Ok(joined(rename_attr(literal), name))
                }
            },
        },
        _ => Err(ExpandError::NonStringEnum),
    }
}

/// The variants for the first `n` of `values`, in their order.
pub open spec fn variants_upto(values: Seq<LiteralModel>, n: nat) -> Result<
    Seq<Seq<char>>,
    ExpandError,
>
    decreases n,
{
    if n == 0 || n > values.len() {
        Ok(Seq::empty())
    } else {
        match variants_upto(values, (n - 1) as nat) {
            Err(e) => Err(e),
            Ok(before) => match variant(values[n - 1]) {
                Err(e) => Err(e),
                Ok(text) => Ok(before.push(text)),
            },
        }
    }
}

/// A struct named `name` with the members `members`; it derives `Default`
/// where `default` holds.
pub open spec fn struct_text(name: Seq<char>, members: Seq<Seq<char>>, default: bool) -> Seq<
    char,
> {
    let head = if default {
        "# [ derive ( Clone , PartialEq , Debug , Default , Deserialize , Serialize ) ] pub struct"@
    } else {
        "# [ derive ( Clone , PartialEq , Debug , Deserialize , Serialize ) ] pub struct"@
    };
    joined(joined(joined(joined(head, name), "{"@), join_separated(members, ","@)), "}"@)
}

/// An enum named `name` with the variants `variants`.
pub open spec fn enum_text(name: Seq<char>, variants: Seq<Seq<char>>) -> Seq<char> {
    joined(
        joined(
            joined(
                joined(
                    "# [ derive ( Clone , PartialEq , Debug , Deserialize , Serialize ) ] pub enum"@,
                    name,
                ),
                "{"@,
            ),
            join_separated(variants, ","@),
        ),
        "}"@,
    )
}

/// An alias named `name` for the type `typ`.
pub open spec fn alias_text(name: Seq<char>, typ: Seq<char>) -> Seq<char> {
    joined(joined(joined(joined("pub type"@, name), "="@), typ), ";"@)
}

/// `text` under a rename attribute that holds `original`, where pascal
/// case changed `original`.
pub open spec fn renamed(original: Seq<char>, pascal: Seq<char>, text: Seq<char>) -> Seq<char> {
    if original == pascal {
        text
    } else {
        joined(rename_attr(original), text)
    }
}

/// The declaration for the schema `node` under the name `name`.
///
/// The type is named `name` in pascal case. A schema with properties
/// becomes a struct, in which a member of the struct's own type stands
/// behind a `Box`. One without properties, whose `enum` holds values,
/// becomes an enum. Any other becomes an alias for the type inferred for
/// it.
#[verifier::opaque]
pub open spec fn declaration(
    root: SchemaModel,
    root_name: Option<Seq<char>>,
    name: Seq<char>,
    node: SchemaModel,
) -> Result<Emitted, ExpandError> {
    match pascal_name(name) {
        Err(e) => Err(e),
        Ok(pascal) => match members_of(root, root_name, pascal, node) {
            Err(e) => Err(e),
            Ok(members) => {
                if members.texts.len() > 0 {
                    Ok(
                        Emitted {
                            text: renamed(
                                name,
                                pascal,
                                struct_text(pascal, members.texts, members.default),
                            ),
                            one_or_many: members.one_or_many,
                        },
                    )
                } else if node.enum_ is Some && node.enum_->0.len() > 0 {
                    match variants_upto(node.enum_->0, node.enum_->0.len()) {
                        Err(e) => Err(e),
                        Ok(variants) => Ok(
                            Emitted {
                                text: renamed(name, pascal, enum_text(pascal, variants)),
                                one_or_many: members.one_or_many,
                            },
                        ),
                    }
                } else {
                    match field_type(root, root_name, Seq::empty(), true, node) {
                        Err(e) => Err(e),
                        Ok(t) => Ok(
                            Emitted {
                                text: alias_text(pascal, t.typ),
                                one_or_many: members.one_or_many || t.one_or_many,
                            },
                        ),
                    }
                }
            },
        },
    }
}

/// The declaration for one entry of `definitions`, after the doc comment
/// for its description where it has one.
pub open spec fn definition(
    root: SchemaModel,
    root_name: Option<Seq<char>>,
    entry: (Seq<char>, SchemaModel),
) -> Result<Emitted, ExpandError> {
    match declaration(root, root_name, entry.0, entry.1) {
        Err(e) => Err(e),
        Ok(declared) => Ok(
            Emitted {
                text: joined(doc_text(entry.1.description, LINE_LENGTH as nat), declared.text),
                one_or_many: declared.one_or_many,
            },
        ),
    }
}

/// The declarations for the first `n` definitions of `node`, in their
/// order.
pub open spec fn definitions_upto(
    root: SchemaModel,
    root_name: Option<Seq<char>>,
    node: SchemaModel,
    n: nat,
) -> Result<EmittedList, ExpandError>
    decreases n,
{
    if n == 0 || n > node.definitions.len() {
        Ok(EmittedList { texts: Seq::empty(), one_or_many: false })
    } else {
        match definitions_upto(root, root_name, node, (n - 1) as nat) {
            Err(e) => Err(e),
            Ok(before) => match definition(root, root_name, node.definitions[n - 1]) {
                Err(e) => Err(e),
                Ok(declared) => Ok(
                    EmittedList {
                        texts: before.texts.push(declared.text),
                        one_or_many: before.one_or_many || declared.one_or_many,
                    },
                ),
            },
        }
    }
}

/// The declarations for all the definitions of `node`.
pub open spec fn definitions_of(
    root: SchemaModel,
    root_name: Option<Seq<char>>,
    node: SchemaModel,
) -> Result<EmittedList, ExpandError> {
    definitions_upto(root, root_name, node, node.definitions.len())
}

/// The declarations of a document: those for the definitions of `node`,
/// then the one for `node` itself where the root has a name.
pub open spec fn declarations(root: SchemaModel, root_name: Option<Seq<char>>, node: SchemaModel)
    -> Result<EmittedList, ExpandError> {
    match definitions_of(root, root_name, node) {
        Err(e) => Err(e),
        Ok(defined) => match root_name {
            None => Ok(defined),
            Some(name) => match declaration(root, root_name, name, node) {
                Err(e) => Err(e),
                Ok(declared) => Ok(
                    EmittedList {
                        texts: defined.texts.push(declared.text),
                        one_or_many: defined.one_or_many || declared.one_or_many,
                    },
                ),
            },
        },
    }
}

/// The text of a document: the definition of the helper type where
/// `needed` holds or a declaration uses it, then the declarations.
pub open spec fn expansion(
    root: SchemaModel,
    root_name: Option<Seq<char>>,
    needed: bool,
    node: SchemaModel,
) -> Result<Emitted, ExpandError> {
    match declarations(root, root_name, node) {
        Err(e) => Err(e),
        Ok(all) => {
            let helper = if needed || all.one_or_many {
                ONE_OR_MANY@
            } else {
                Seq::empty()
            };
            Ok(
                Emitted {
                    text: joined(helper, join_all(all.texts)),
                    one_or_many: needed || all.one_or_many,
                },
            )
        },
    }
}

/// In a struct, a member whose inferred type is the struct's own name
/// stands behind a `Box`: the struct never holds itself directly.
pub proof fn lemma_member_of_own_type_is_boxed(
    root: SchemaModel,
    root_name: Option<Seq<char>>,
    name: Seq<char>,
    owner: SchemaModel,
    k: int,
)
    requires
        pascal_name(name) is Ok,
        0 <= k < owner.properties.len(),
        member(root, root_name, pascal_name(name)->Ok_0, owner, k) is Ok,
        inferred(root, root_name, owner.properties[k].1) matches Ok(inner) && inner.typ
            == pascal_name(name)->Ok_0,
    ensures
        ({
            let own = pascal_name(name)->Ok_0;
            let t = member(root, root_name, own, owner, k)->Ok_0.1;
            t.typ == applied("Box<"@, own) || t.typ == applied("Option<"@, applied("Box<"@, own))
        }),
{
    let own = pascal_name(name)->Ok_0;
    lemma_self_reference_is_boxed(
        root,
        root_name,
        own,
        is_required(owner, owner.properties[k].0),
        owner.properties[k].1,
    );
}

/// Each of the first `n` definitions has exactly one declaration, and the
/// declarations stand in the order of the definitions.
pub proof fn lemma_definitions_in_order(
    root: SchemaModel,
    root_name: Option<Seq<char>>,
    node: SchemaModel,
    n: nat,
)
    requires
        n <= node.definitions.len(),
        definitions_upto(root, root_name, node, n) is Ok,
    ensures
        definitions_upto(root, root_name, node, n)->Ok_0.texts.len() == n,
        forall|i: int|
            0 <= i < n ==> (#[trigger] definition(root, root_name, node.definitions[i])) is Ok
                && definitions_upto(root, root_name, node, n)->Ok_0.texts[i] == definition(
                root,
                root_name,
                node.definitions[i],
            )->Ok_0.text,
    decreases n,
{
    if n > 0 {
        lemma_definitions_in_order(root, root_name, node, (n - 1) as nat);
    }
}

/// A document gets one declaration for each definition, in the order of
/// the definitions, and after them the declaration for the root where the
/// root has a name.
pub proof fn lemma_declarations_in_order(
    root: SchemaModel,
    root_name: Option<Seq<char>>,
    node: SchemaModel,
)
    requires
        declarations(root, root_name, node) is Ok,
    ensures
        ({
            let all = declarations(root, root_name, node)->Ok_0.texts;
            let count = node.definitions.len();
            &&& all.len() == count + (if root_name is Some {
                1nat
            } else {
                0nat
            })
            &&& forall|i: int|
                0 <= i < count ==> (#[trigger] definition(
                    root,
                    root_name,
                    node.definitions[i],
                )) is Ok && all[i] == definition(root, root_name, node.definitions[i])->Ok_0.text
            &&& root_name is Some ==> declaration(root, root_name, root_name->0, node) is Ok
                && all[count as int] == declaration(root, root_name, root_name->0, node)->Ok_0.text
        }),
{
    lemma_definitions_in_order(root, root_name, node, node.definitions.len());
}

/// Expanding a document again gives the same text: what the first run
/// leaves behind, that the helper type is needed, is what the second run
/// finds out by itself.
pub proof fn lemma_expansion_repeats(
    root: SchemaModel,
    root_name: Option<Seq<char>>,
    needed: bool,
    node: SchemaModel,
)
    requires
        expansion(root, root_name, needed, node) is Ok,
    ensures
        expansion(root, root_name, expansion(root, root_name, needed, node)->Ok_0.one_or_many, node)
            == expansion(root, root_name, needed, node),
{
}

/// The helper type is written once, before all declarations, exactly if
/// it was needed before or a declaration uses it.
pub proof fn lemma_helper_once(
    root: SchemaModel,
    root_name: Option<Seq<char>>,
    needed: bool,
    node: SchemaModel,
)
    requires
        expansion(root, root_name, needed, node) is Ok,
    ensures
        ({
            let out = expansion(root, root_name, needed, node)->Ok_0;
            let all = declarations(root, root_name, node)->Ok_0;
            &&& out.one_or_many == (needed || all.one_or_many)
            &&& out.one_or_many ==> out.text == joined(ONE_OR_MANY@, join_all(all.texts))
            &&& !out.one_or_many ==> out.text == join_all(all.texts)
        }),
{
    let all = declarations(root, root_name, node)->Ok_0;
    lemma_joined_empty(join_all(all.texts));
}

/// Once a member fails, the members fail with that error.
proof fn lemma_members_error(
    root: SchemaModel,
    root_name: Option<Seq<char>>,
    enclosing: Seq<char>,
    owner: SchemaModel,
    n: nat,
    e: ExpandError,
)
    requires
        n <= owner.properties.len(),
        members_upto(root, root_name, enclosing, owner, n) == Err::<Members, ExpandError>(e),
    ensures
        members_upto(root, root_name, enclosing, owner, owner.properties.len()) == Err::<
            Members,
            ExpandError,
        >(e),
    decreases owner.properties.len() - n,
{
    if n < owner.properties.len() {
        lemma_members_error(root, root_name, enclosing, owner, n + 1, e);
    }
}

/// Once a variant fails, the variants fail with that error.
proof fn lemma_variants_error(values: Seq<LiteralModel>, n: nat, e: ExpandError)
    requires
        n <= values.len(),
        variants_upto(values, n) == Err::<Seq<Seq<char>>, ExpandError>(e),
    ensures
        variants_upto(values, values.len()) == Err::<Seq<Seq<char>>, ExpandError>(e),
    decreases values.len() - n,
{
    if n < values.len() {
        lemma_variants_error(values, n + 1, e);
    }
}

/// Once a definition fails, the definitions fail with that error.
proof fn lemma_definitions_error(
    root: SchemaModel,
    root_name: Option<Seq<char>>,
    node: SchemaModel,
    n: nat,
    e: ExpandError,
)
    requires
        n <= node.definitions.len(),
        definitions_upto(root, root_name, node, n) == Err::<EmittedList, ExpandError>(e),
    ensures
        definitions_of(root, root_name, node) == Err::<EmittedList, ExpandError>(e),
    decreases node.definitions.len() - n,
{
    if n < node.definitions.len() {
        lemma_definitions_error(root, root_name, node, n + 1, e);
    }
}

/// The variant of an enum for the value `value`.
pub fn expand_variant(value: &Literal) -> (r: Result<quote::Tokens, ExpandError>)
    ensures
        match r {
            Ok(tokens) => variant(value@) == Ok::<Seq<char>, ExpandError>(token_text(tokens)),
            Err(e) => variant(value@) == Err::<Seq<char>, ExpandError>(e),
        },
{
    match value {
        Literal::Text(literal) => {
            let pascal = match to_type_name(literal.as_str()) {
                Ok(pascal) => pascal,
                Err(e) => {
                    return Err(e);
                },
            };
            proof {
                reveal_strlit("");
                assert(""@ =~= Seq::<char>::empty());
            }
            let name = match rename_keyword("", pascal.as_str()) {
                Some(tokens) => tokens,
                None => {
                    let mut tokens = new_tokens();
                    append_token(&mut tokens, pascal.as_str());
                    proof {
                        lemma_joined_empty(pascal@);
                    }
                    tokens
                },
            };
            if pascal == *literal {
                Ok(name)
            } else {
                let mut tokens = new_tokens();
                append_rename_attr(&mut tokens, literal.as_str());
                append_tokens(&mut tokens, &name);
                proof {
                    lemma_joined_empty(rename_attr(literal@));
                }
                Ok(tokens)
            }
        },
        _ => Err(ExpandError::NonStringEnum),
    }
}

/// The variants for `values`, in their order.
pub fn expand_variants(values: &Vec<Literal>) -> (r: Result<Vec<quote::Tokens>, ExpandError>)
    ensures
        match r {
            Ok(list) => variants_upto(literals(*values), values@.len() as nat) == Ok::<
                Seq<Seq<char>>,
                ExpandError,
            >(token_texts(list)),
            Err(e) => variants_upto(literals(*values), values@.len() as nat) == Err::<
                Seq<Seq<char>>,
                ExpandError,
            >(e),
        },
{
    let mut list: Vec<quote::Tokens> = Vec::new();
    let mut i: usize = 0;
    assert(token_texts(list) =~= Seq::empty());
    while i < values.len()
        invariant
            i <= values@.len(),
            variants_upto(literals(*values), i as nat) == Ok::<Seq<Seq<char>>, ExpandError>(
                token_texts(list),
            ),
        decreases values.len() - i,
    {
        let ghost before = token_texts(list);
        assert(literals(*values)[i as int] == values@[i as int]@);
        match expand_variant(&values[i]) {
            Ok(tokens) => {
                list.push(tokens);
                assert(token_texts(list) =~= before.push(token_text(tokens)));
            },
            Err(e) => {
                proof {
                    lemma_variants_error(literals(*values), (i + 1) as nat, e);
                }
                return Err(e);
            },
        }
        i += 1;
    }
    Ok(list)
}

impl<'r> Expander<'r> {
    /// Whether `self` is `before` after a call that gave `r` where
    /// `expected` was to be written: the same document, the text of
    /// `expected` in `r`, and the helper type needed if it was needed before
    /// or the text uses it. A call that fails gives the error of `expected`
    /// and changes nothing.
    pub open spec fn emitted(
        &self,
        before: &Expander<'r>,
        r: Result<quote::Tokens, ExpandError>,
        expected: Result<Emitted, ExpandError>,
    ) -> bool {
        &&& self.same_document(before)
        &&& match r {
            Ok(tokens) => {
                &&& expected matches Ok(out)
                &&& token_text(tokens) == out.text
                &&& self.needs_one_or_many == (before.needs_one_or_many || out.one_or_many)
            },
            Err(e) => {
                &&& expected == Err::<Emitted, ExpandError>(e)
                &&& self.needs_one_or_many == before.needs_one_or_many
            },
        }
    }

    /// The members of the struct `enclosing` that `schema` describes, and
    /// whether every one of them is an `Option`.
    pub fn expand_fields(&mut self, enclosing: &str, schema: &Schema) -> (r: Result<
        (Vec<quote::Tokens>, bool),
        ExpandError,
    >)
        ensures
            final(self).same_document(old(self)),
            match r {
                Ok((list, default)) => {
                    &&& members_of(old(self).root@, old(self).name(), enclosing@, schema@)
                        matches Ok(members)
                    &&& token_texts(list) == members.texts
                    &&& default == members.default
                    &&& final(self).needs_one_or_many == (old(self).needs_one_or_many
                        || members.one_or_many)
                },
                Err(e) => {
                    &&& members_of(old(self).root@, old(self).name(), enclosing@, schema@) == Err::<
                        Members,
                        ExpandError,
                    >(e)
                    &&& final(self).needs_one_or_many == old(self).needs_one_or_many
                },
            },
    {
        let saved = self.needs_one_or_many;
        let ghost before = *self;
        let owner = match self.schema(schema) {
            Ok(owner) => owner,
            Err(e) => {
                return Err(e);
            },
        };
        let node = owner.get();
        let mut list: Vec<quote::Tokens> = Vec::new();
        let mut default = true;
        let ghost mut used = false;
        let mut i: usize = 0;
        assert(token_texts(list) =~= Seq::empty());
        while i < node.properties.len()
            invariant
                i <= node.properties@.len(),
                before == *old(self),
                resolution(before.root@, schema@) == Ok::<
                    SchemaModel,
                    ExpandError,
                >(node@),
                self.same_document(&before),
                saved == before.needs_one_or_many,
                self.needs_one_or_many == (saved || used),
                node@.properties == entries(node.properties),
                node@.required == opt_texts(node.required),
                members_upto(before.root@, before.name(), enclosing@, node@, i as nat) == Ok::<
                    Members,
                    ExpandError,
                >(Members { texts: token_texts(list), default, one_or_many: used }),
            decreases node.properties.len() - i,
        {
            let ghost texts_before = token_texts(list);
            let name = node.properties[i].0.as_str();
            let value = &node.properties[i].1;
            assert(node@.properties[i as int] == (name@, value@));
            assert(value@.description == opt_text(value.description));
            let key = match field(name) {
                Ok(key) => key,
                Err(e) => {
                    self.needs_one_or_many = saved;
                    proof {
                        lemma_members_error(
                            before.root@,
                            before.name(),
                            enclosing@,
                            node@,
                            (i + 1) as nat,
                            e,
                        );
                    }
                    return Err(e);
                },
            };
            let required = match &node.required {
                Some(names) => contains_text(names, name),
                None => false,
            };
            let t = match self.expand_type(enclosing, required, value) {
                Ok(t) => t,
                Err(e) => {
                    self.needs_one_or_many = saved;
                    proof {
                        lemma_members_error(
                            before.root@,
                            before.name(),
                            enclosing@,
                            node@,
                            (i + 1) as nat,
                            e,
                        );
                    }
                    return Err(e);
                },
            };
            if !t.optional {
                default = false;
            }
            let mut tokens = new_tokens();
            if let Some(description) = &value.description {
                let comment = make_doc_comment(description.as_str(), LINE_LENGTH - INDENT_LENGTH);
                append_token(&mut tokens, comment.as_str());
                proof {
                    lemma_joined_empty(comment@);
                }
            }
            if t.default {
                append_token(&mut tokens, "#[serde(default)]");
            } else {
                proof {
                    lemma_joined_empty(token_text(tokens));
                }
            }
            append_tokens(&mut tokens, &key);
            append_token(&mut tokens, ":");
            append_token(&mut tokens, t.typ.as_str());
            list.push(tokens);
            proof {
                used = used || t.one_or_many;
                assert(token_texts(list) =~= texts_before.push(token_text(tokens)));
            }
            i += 1;
        }
        Ok((list, default))
    }

    /// The declaration for `schema` under the name `original_name`.
    pub fn expand_schema(&mut self, original_name: &str, schema: &Schema) -> (r: Result<
        quote::Tokens,
        ExpandError,
    >)
        ensures
            final(self).emitted(
                old(self),
                r,
                declaration(old(self).root@, old(self).name(), original_name@, schema@),
            ),
    {
        proof {
            reveal(declaration);
        }
        let saved = self.needs_one_or_many;
        let pascal_case_name = match to_type_name(original_name) {
            Ok(name) => name,
            Err(e) => {
                return Err(e);
            },
        };
        let (fields, default) = match self.expand_fields(pascal_case_name.as_str(), schema) {
            Ok(found) => found,
            Err(e) => {
                return Err(e);
            },
        };
        let mut type_decl = new_tokens();
        proof {
            assert(schema@.enum_ == opt_literals(schema.enum_));
        }
        let values: Option<&Vec<Literal>> = match &schema.enum_ {
            Some(values) => if values.len() > 0 {
                Some(values)
            } else {
                None
            },
            None => None,
        };
        if fields.len() > 0 {
            if default {
                append_token(
                    &mut type_decl,
                    "# [ derive ( Clone , PartialEq , Debug , Default , Deserialize , Serialize ) ] pub struct",
                );
                proof {
                    lemma_joined_empty(
                        "# [ derive ( Clone , PartialEq , Debug , Default , Deserialize , Serialize ) ] pub struct"@,
                    );
                }
            } else {
                append_token(
                    &mut type_decl,
                    "# [ derive ( Clone , PartialEq , Debug , Deserialize , Serialize ) ] pub struct",
                );
                proof {
                    lemma_joined_empty(
                        "# [ derive ( Clone , PartialEq , Debug , Deserialize , Serialize ) ] pub struct"@,
                    );
                }
            }
            append_token(&mut type_decl, pascal_case_name.as_str());
            append_token(&mut type_decl, "{");
            let members = separate_tokens(&fields, ",");
            append_tokens(&mut type_decl, &members);
            append_token(&mut type_decl, "}");
        } else if let Some(values) = values {
            let variants = match expand_variants(values) {
                Ok(variants) => variants,
                Err(e) => {
                    self.needs_one_or_many = saved;
                    return Err(e);
                },
            };
            append_token(
                &mut type_decl,
                "# [ derive ( Clone , PartialEq , Debug , Deserialize , Serialize ) ] pub enum",
            );
            proof {
                lemma_joined_empty(
                    "# [ derive ( Clone , PartialEq , Debug , Deserialize , Serialize ) ] pub enum"@,
                );
            }
            append_token(&mut type_decl, pascal_case_name.as_str());
            append_token(&mut type_decl, "{");
            let listed = separate_tokens(&variants, ",");
            append_tokens(&mut type_decl, &listed);
            append_token(&mut type_decl, "}");
        } else {
            let t = match self.expand_type("", true, schema) {
                Ok(t) => t,
                Err(e) => {
                    self.needs_one_or_many = saved;
                    return Err(e);
                },
            };
            append_token(&mut type_decl, "pub type");
            proof {
                lemma_joined_empty("pub type"@);
                assert(""@ =~= Seq::<char>::empty()) by {
                    reveal_strlit("");
                }
            }
            append_token(&mut type_decl, pascal_case_name.as_str());
            append_token(&mut type_decl, "=");
            append_token(&mut type_decl, t.typ.as_str());
            append_token(&mut type_decl, ";");
            return Ok(type_decl);
        }
        if str_eq(original_name, pascal_case_name.as_str()) {
            Ok(type_decl)
        } else {
            let mut tokens = new_tokens();
            append_rename_attr(&mut tokens, original_name);
            append_tokens(&mut tokens, &type_decl);
            proof {
                lemma_joined_empty(rename_attr(original_name@));
            }
            Ok(tokens)
        }
    }

    /// The declarations for the definitions of `schema`, in their order.
    pub fn expand_definitions(&mut self, schema: &Schema) -> (r: Result<
        Vec<quote::Tokens>,
        ExpandError,
    >)
        ensures
            final(self).same_document(old(self)),
            match r {
                Ok(list) => {
                    &&& definitions_of(old(self).root@, old(self).name(), schema@) matches Ok(
                        defined,
                    )
                    &&& token_texts(list) == defined.texts
                    &&& final(self).needs_one_or_many == (old(self).needs_one_or_many
                        || defined.one_or_many)
                },
                Err(e) => {
                    &&& definitions_of(old(self).root@, old(self).name(), schema@) == Err::<
                        EmittedList,
                        ExpandError,
                    >(e)
                    &&& final(self).needs_one_or_many == old(self).needs_one_or_many
                },
            },
    {
        let saved = self.needs_one_or_many;
        let ghost before = *self;
        let mut types: Vec<quote::Tokens> = Vec::new();
        let ghost mut used = false;
        let mut i: usize = 0;
        assert(token_texts(types) =~= Seq::empty());
        while i < schema.definitions.len()
            invariant
                i <= schema.definitions@.len(),
                before == *old(self),
                self.same_document(&before),
                saved == before.needs_one_or_many,
                self.needs_one_or_many == (saved || used),
                schema@.definitions == entries(schema.definitions),
                definitions_upto(before.root@, before.name(), schema@, i as nat) == Ok::<
                    EmittedList,
                    ExpandError,
                >(EmittedList { texts: token_texts(types), one_or_many: used }),
            decreases schema.definitions.len() - i,
        {
            let ghost texts_before = token_texts(types);
            let name = schema.definitions[i].0.as_str();
            let def = &schema.definitions[i].1;
            assert(schema@.definitions[i as int] == (name@, def@));
            assert(def@.description == opt_text(def.description));
            let ghost expected = declaration(before.root@, before.name(), name@, def@);
            let type_decl = match self.expand_schema(name, def) {
                Ok(tokens) => tokens,
                Err(e) => {
                    self.needs_one_or_many = saved;
                    proof {
                        lemma_definitions_error(
                            before.root@,
                            before.name(),
                            schema@,
                            (i + 1) as nat,
                            e,
                        );
                    }
                    return Err(e);
                },
            };
            let mut tokens = new_tokens();
            match &def.description {
                Some(comment) => {
                    let t = make_doc_comment(comment.as_str(), LINE_LENGTH);
                    append_token(&mut tokens, t.as_str());
                    proof {
                        lemma_joined_empty(t@);
                    }
                },
                None => {},
            }
            append_tokens(&mut tokens, &type_decl);
            types.push(tokens);
            proof {
                used = used || expected->Ok_0.one_or_many;
                assert(token_texts(types) =~= texts_before.push(token_text(tokens)));
            }
            i += 1;
        }
        Ok(types)
    }

    /// The text for the document `schema`: the helper type where a
    /// declaration needs it, the declarations for the definitions, and the
    /// declaration for the root where it has a name.
    pub fn expand(&mut self, schema: &Schema) -> (r: Result<quote::Tokens, ExpandError>)
        ensures
            final(self).same_document(old(self)),
            match r {
                Ok(tokens) => {
                    &&& expansion(
                        old(self).root@,
                        old(self).name(),
                        old(self).needs_one_or_many,
                        schema@,
                    ) matches Ok(out)
                    &&& token_text(tokens) == out.text
                    &&& final(self).needs_one_or_many == out.one_or_many
                },
                Err(e) => {
                    &&& expansion(
                        old(self).root@,
                        old(self).name(),
                        old(self).needs_one_or_many,
                        schema@,
                    ) == Err::<Emitted, ExpandError>(e)
                    &&& final(self).needs_one_or_many == old(self).needs_one_or_many
                },
            },
    {
        let saved = self.needs_one_or_many;
        let mut types = match self.expand_definitions(schema) {
            Ok(types) => types,
            Err(e) => {
                return Err(e);
            },
        };
        if let Some(name) = self.root_name {
            let ghost texts_before = token_texts(types);
            match self.expand_schema(name, schema) {
                Ok(tokens) => {
                    types.push(tokens);
                    assert(token_texts(types) =~= texts_before.push(token_text(tokens)));
                },
                Err(e) => {
                    self.needs_one_or_many = saved;
                    return Err(e);
                },
            }
        }
        let mut tokens = new_tokens();
        if self.needs_one_or_many {
            append_token(&mut tokens, ONE_OR_MANY);
            proof {
                lemma_joined_empty(ONE_OR_MANY@);
            }
        }
        let all = concat_tokens(&types);
        append_tokens(&mut tokens, &all);
        Ok(tokens)
    }
}

} // verus!
