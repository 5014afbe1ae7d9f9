//! The schema tree that the expander reads, and its mathematical model.
//!
//! Every executable type here has a view: `Schema` is seen as a
//! `SchemaModel`, `Literal` as a `LiteralModel`, and `OneOrMany<T>` as the
//! sequence of its items. Contracts elsewhere in the crate speak of these
//! views only.

use crate::text::{
    chars_less, chars_of, lemma_text_less_irreflexive, lemma_text_less_transitive, text_less, texts,
};
use vstd::prelude::*;

verus! {

/// The primitive kinds a schema node may declare under `type`.
#[derive(Clone, Copy, Debug, PartialEq, Eq, Structural)]
pub enum SimpleTypes {
    Array,
    Boolean,
    Integer,
    Null,
    Number,
    Object,
    String,
}

/// Either a single item or a list of items.
#[derive(Debug)]
pub enum OneOrMany<T> {
    One(Box<T>),
    Many(Vec<T>),
}

impl<T> View for OneOrMany<T> {
    type V = Seq<T>;

    /// The items held, a single item being a sequence of length one.
    open spec fn view(&self) -> Seq<T> {
        match self {
            OneOrMany::One(item) => seq![**item],
            OneOrMany::Many(items) => items@,
        }
    }
}

impl<T> OneOrMany<T> {
    /// The number of items held.
    pub fn len(&self) -> (n: usize)
        ensures
            n == self@.len(),
    {
        match self {
            OneOrMany::One(_) => 1,
            OneOrMany::Many(items) => items.len(),
        }
    }

    /// The item at position `i`.
    pub fn get(&self, i: usize) -> (item: &T)
        requires
            i < self@.len(),
        ensures
            *item == self@[i as int],
    {
        match self {
            OneOrMany::One(item) => &**item,
            OneOrMany::Many(items) => &items[i],
        }
    }
}

/// Turns `this` into its list form in place and hands out the list.
///
/// The items and their order are unchanged; whatever the caller then does to
/// the list is what `this` holds afterwards.
pub fn as_mut_vec<T>(this: &mut OneOrMany<T>) -> (items: &mut Vec<T>)
    ensures
        items@ == old(this)@,
        *final(this) == OneOrMany::Many(*final(items)),
{
    if let OneOrMany::One(_) = this {
        let mut single: OneOrMany<T> = OneOrMany::Many(Vec::new());
        std::mem::swap(this, &mut single);
        if let OneOrMany::One(item) = single {
            let mut list: Vec<T> = Vec::new();
            list.push(*item);
            assert(list@ =~= seq![*item]);
            *this = OneOrMany::Many(list);
        }
    }
    match this {
        OneOrMany::Many(items) => items,
        OneOrMany::One(_) => vstd::pervasive::unreached(),
    }
}

/// A literal JSON value, as found under `enum` and `default`.
///
/// A number is kept as its decimal text.
#[derive(Debug)]
pub enum Literal {
    Null,
    Bool(bool),
    Number(String),
    Text(String),
    Array(Vec<Literal>),
    Object(Vec<(String, Literal)>),
}

/// The model of a `Literal`.
pub enum LiteralModel {
    Null,
    Bool(bool),
    Number(Seq<char>),
    Text(Seq<char>),
    Array(Seq<LiteralModel>),
    Object(Seq<(Seq<char>, LiteralModel)>),
}

/// One node of a schema document.
#[derive(Debug)]
pub struct Schema {
    /// `$ref`: a slash-delimited path to another node.
    pub ref_: Option<String>,
    /// `type`: the declared primitive kinds.
    pub type_: OneOrMany<SimpleTypes>,
    /// `properties`, in the order in which the members are written. A
    /// document read from JSON has them in the order of their names.
    pub properties: Vec<(String, Schema)>,
    /// `required`: names of the properties that must be present.
    pub required: Option<Vec<String>>,
    /// `items`: element schemas of an array.
    pub items: Vec<Schema>,
    /// `additionalProperties`, where it is a schema. A boolean there carries
    /// no schema and is held as `None`.
    pub additional_properties: Option<Box<Schema>>,
    /// `allOf`.
    pub all_of: Option<Vec<Schema>>,
    /// `anyOf`.
    pub any_of: Option<Vec<Schema>>,
    /// `enum`.
    pub enum_: Option<Vec<Literal>>,
    /// `default`.
    pub default: Option<Literal>,
    /// `description`.
    pub description: Option<String>,
    /// `definitions`, in the order in which the declarations are written.
    /// A document read from JSON has them in the order of their names.
    pub definitions: Vec<(String, Schema)>,
}

/// The model of a `Schema`: the same tree over sequences of characters.
pub struct SchemaModel {
    pub ref_: Option<Seq<char>>,
    pub type_: Seq<SimpleTypes>,
    pub properties: Seq<(Seq<char>, SchemaModel)>,
    pub required: Option<Seq<Seq<char>>>,
    pub items: Seq<SchemaModel>,
    pub additional_properties: Option<Box<SchemaModel>>,
    pub all_of: Option<Seq<SchemaModel>>,
    pub any_of: Option<Seq<SchemaModel>>,
    pub enum_: Option<Seq<LiteralModel>>,
    pub default: Option<LiteralModel>,
    pub description: Option<Seq<char>>,
    pub definitions: Seq<(Seq<char>, SchemaModel)>,
}

/// The view of an optional string.
pub open spec fn opt_text(o: Option<String>) -> Option<Seq<char>> {
    match o {
        Some(s) => Some(s@),
        None => None,
    }
}

/// The views of an optional list of strings.
pub open spec fn opt_texts(o: Option<Vec<String>>) -> Option<Seq<Seq<char>>> {
    match o {
        Some(v) => Some(texts(v)),
        None => None,
    }
}

/// The views of a list of literals.
pub open spec fn literals(v: Vec<Literal>) -> Seq<LiteralModel>
    decreases v,
{
    Seq::new(
        v@.len(),
        |i: int|
            if 0 <= i < v@.len() {
                v@[i]@
            } else {
                LiteralModel::Null
            },
    )
}

/// The views of the members of an object literal.
pub open spec fn members(v: Vec<(String, Literal)>) -> Seq<(Seq<char>, LiteralModel)>
    decreases v,
{
    Seq::new(
        v@.len(),
        |i: int|
            if 0 <= i < v@.len() {
                (v@[i].0@, v@[i].1@)
            } else {
                (Seq::empty(), LiteralModel::Null)
            },
    )
}

impl View for Literal {
    type V = LiteralModel;

    open spec fn view(&self) -> LiteralModel
        decreases self,
    {
        match self {
            Literal::Null => LiteralModel::Null,
            Literal::Bool(b) => LiteralModel::Bool(*b),
            Literal::Number(n) => LiteralModel::Number(n@),
            Literal::Text(t) => LiteralModel::Text(t@),
            Literal::Array(v) => LiteralModel::Array(literals(*v)),
            Literal::Object(v) => LiteralModel::Object(members(*v)),
        }
    }
}

/// The views of an optional list of literals.
pub open spec fn opt_literals(o: Option<Vec<Literal>>) -> Option<Seq<LiteralModel>> {
    match o {
        Some(v) => Some(literals(v)),
        None => None,
    }
}

/// The view of an optional literal.
pub open spec fn opt_literal(o: Option<Literal>) -> Option<LiteralModel> {
    match o {
        Some(l) => Some(l@),
        None => None,
    }
}

/// The schema that has no attribute set.
pub open spec fn empty_model() -> SchemaModel {
    SchemaModel {
        ref_: None,
        type_: Seq::empty(),
        properties: Seq::empty(),
        required: None,
        items: Seq::empty(),
        additional_properties: None,
        all_of: None,
        any_of: None,
        enum_: None,
        default: None,
        description: None,
        definitions: Seq::empty(),
    }
}

/// The views of a list of nodes.
pub open spec fn nodes(v: Vec<Schema>) -> Seq<SchemaModel>
    decreases v,
{
    Seq::new(
        v@.len(),
        |i: int|
            if 0 <= i < v@.len() {
                v@[i]@
            } else {
                empty_model()
            },
    )
}

/// The views of an optional list of nodes.
pub open spec fn opt_nodes(o: Option<Vec<Schema>>) -> Option<Seq<SchemaModel>>
    decreases o,
{
    match o {
        Some(v) => Some(nodes(v)),
        None => None,
    }
}

/// The views of a list of named nodes.
pub open spec fn entries(v: Vec<(String, Schema)>) -> Seq<(Seq<char>, SchemaModel)>
    decreases v,
{
    Seq::new(
        v@.len(),
        |i: int|
            if 0 <= i < v@.len() {
                (v@[i].0@, v@[i].1@)
            } else {
                (Seq::empty(), empty_model())
            },
    )
}

/// The view of an optional boxed node.
pub open spec fn opt_node(o: Option<Box<Schema>>) -> Option<Box<SchemaModel>>
    decreases o,
{
    match o {
        Some(b) => Some(Box::new((*b).view())),
        None => None,
    }
}

impl View for Schema {
    type V = SchemaModel;

    open spec fn view(&self) -> SchemaModel
        decreases self,
    {
        SchemaModel {
            ref_: opt_text(self.ref_),
            type_: self.type_@,
            properties: entries(self.properties),
            required: opt_texts(self.required),
            items: nodes(self.items),
            additional_properties: opt_node(self.additional_properties),
            all_of: opt_nodes(self.all_of),
            any_of: opt_nodes(self.any_of),
            enum_: opt_literals(self.enum_),
            default: opt_literal(self.default),
            description: opt_text(self.description),
            definitions: entries(self.definitions),
        }
    }
}

impl Default for Schema {
    /// The schema that has no attribute set.
    fn default() -> (s: Schema)
        ensures
            s@ == empty_model(),
            s@.well_formed(),
    {
        let s = Schema {
            ref_: None,
            type_: OneOrMany::Many(Vec::new()),
            properties: Vec::new(),
            required: None,
            items: Vec::new(),
            additional_properties: None,
            all_of: None,
            any_of: None,
            enum_: None,
            default: None,
            description: None,
            definitions: Vec::new(),
        };
        assert(s@.properties =~= Seq::empty());
        assert(s@.items =~= Seq::empty());
        assert(s@.definitions =~= Seq::empty());
        assert(s@.well_formed()) by {
            assert(values_well_formed(s@.properties));
            assert(values_well_formed(s@.definitions));
            assert(all_well_formed(s@.items));
        }
        s
    }
}

/// A copy of an optional string.
pub fn clone_opt_text(o: &Option<String>) -> (r: Option<String>)
    ensures
        opt_text(r) == opt_text(*o),
{
    match o {
        Some(s) => Some(s.clone()),
        None => None,
    }
}

/// A copy of a list of strings.
pub fn clone_texts(v: &Vec<String>) -> (r: Vec<String>)
    ensures
        texts(r) == texts(*v),
{
    let mut r: Vec<String> = Vec::new();
    let mut i: usize = 0;
    while i < v.len()
        invariant
            i <= v@.len(),
            r@.len() == i,
            forall|k: int| 0 <= k < i ==> r@[k]@ == v@[k]@,
        decreases v.len() - i,
    {
        r.push(v[i].clone());
        i += 1;
    }
    assert(texts(r) =~= texts(*v));
    r
}

/// A copy of a list of kinds.
pub fn clone_kinds(t: &OneOrMany<SimpleTypes>) -> (r: OneOrMany<SimpleTypes>)
    ensures
        r@ == t@,
{
    let mut r: Vec<SimpleTypes> = Vec::new();
    let mut i: usize = 0;
    while i < t.len()
        invariant
            i <= t@.len(),
            r@ == t@.take(i as int),
        decreases t@.len() - i,
    {
        r.push(*t.get(i));
        assert(t@.take(i + 1) =~= t@.take(i as int).push(t@[i as int]));
        i += 1;
    }
    assert(t@.take(i as int) =~= t@);
    OneOrMany::Many(r)
}

/// A copy of a literal.
pub fn clone_literal(l: &Literal) -> (r: Literal)
    ensures
        r@ == l@,
    decreases l,
{
    match l {
        Literal::Null => Literal::Null,
        Literal::Bool(b) => Literal::Bool(*b),
        Literal::Number(n) => Literal::Number(n.clone()),
        Literal::Text(t) => Literal::Text(t.clone()),
        Literal::Array(v) => Literal::Array(clone_literals(v)),
        Literal::Object(v) => Literal::Object(clone_members(v)),
    }
}

/// A copy of a list of literals.
pub fn clone_literals(v: &Vec<Literal>) -> (r: Vec<Literal>)
    ensures
        literals(r) == literals(*v),
    decreases v,
{
    let mut r: Vec<Literal> = Vec::new();
    let mut i: usize = 0;
    while i < v.len()
        invariant
            i <= v@.len(),
            r@.len() == i,
            forall|k: int| 0 <= k < i ==> r@[k]@ == v@[k]@,
        decreases v.len() - i,
    {
        r.push(clone_literal(&v[i]));
        i += 1;
    }
    assert(literals(r) =~= literals(*v));
    r
}

/// A copy of the members of an object literal.
pub fn clone_members(v: &Vec<(String, Literal)>) -> (r: Vec<(String, Literal)>)
    ensures
        members(r) == members(*v),
    decreases v,
{
    let mut r: Vec<(String, Literal)> = Vec::new();
    let mut i: usize = 0;
    while i < v.len()
        invariant
            i <= v@.len(),
            r@.len() == i,
            forall|k: int| 0 <= k < i ==> r@[k].0@ == v@[k].0@ && r@[k].1@ == v@[k].1@,
        decreases v.len() - i,
    {
        r.push((v[i].0.clone(), clone_literal(&v[i].1)));
        i += 1;
    }
    assert(members(r) =~= members(*v));
    r
}

/// A copy of a schema node and of everything below it.
pub fn clone_schema(s: &Schema) -> (r: Schema)
    ensures
        r@ == s@,
    decreases s,
{
    Schema {
        ref_: clone_opt_text(&s.ref_),
        type_: clone_kinds(&s.type_),
        properties: clone_entries(&s.properties),
        required: match &s.required {
            Some(v) => Some(clone_texts(v)),
            None => None,
        },
        items: clone_nodes(&s.items),
        additional_properties: match &s.additional_properties {
            Some(b) => Some(Box::new(clone_schema(&**b))),
            None => None,
        },
        all_of: match &s.all_of {
            Some(v) => Some(clone_nodes(v)),
            None => None,
        },
        any_of: match &s.any_of {
            Some(v) => Some(clone_nodes(v)),
            None => None,
        },
        enum_: match &s.enum_ {
            Some(v) => Some(clone_literals(v)),
            None => None,
        },
        default: match &s.default {
            Some(l) => Some(clone_literal(l)),
            None => None,
        },
        description: clone_opt_text(&s.description),
        definitions: clone_entries(&s.definitions),
    }
}

/// A copy of a list of nodes.
pub fn clone_nodes(v: &Vec<Schema>) -> (r: Vec<Schema>)
    ensures
        nodes(r) == nodes(*v),
    decreases v,
{
    let mut r: Vec<Schema> = Vec::new();
    let mut i: usize = 0;
    while i < v.len()
        invariant
            i <= v@.len(),
            r@.len() == i,
            forall|k: int| 0 <= k < i ==> r@[k]@ == v@[k]@,
        decreases v.len() - i,
    {
        r.push(clone_schema(&v[i]));
        i += 1;
    }
    assert(nodes(r) =~= nodes(*v));
    r
}

/// A copy of a list of named nodes.
pub fn clone_entries(v: &Vec<(String, Schema)>) -> (r: Vec<(String, Schema)>)
    ensures
        entries(r) == entries(*v),
    decreases v,
{
    let mut r: Vec<(String, Schema)> = Vec::new();
    let mut i: usize = 0;
    while i < v.len()
        invariant
            i <= v@.len(),
            r@.len() == i,
            forall|k: int| 0 <= k < i ==> r@[k].0@ == v@[k].0@ && r@[k].1@ == v@[k].1@,
        decreases v.len() - i,
    {
        r.push((v[i].0.clone(), clone_schema(&v[i].1)));
        i += 1;
    }
    assert(entries(r) =~= entries(*v));
    r
}

/// Whether two optional strings are the same.
pub fn opt_text_eq(a: &Option<String>, b: &Option<String>) -> (r: bool)
    ensures
        r == (opt_text(*a) == opt_text(*b)),
{
    match (a, b) {
        (Some(x), Some(y)) => *x == *y,
        (None, None) => true,
        _ => false,
    }
}

/// Whether two lists of strings are the same.
pub fn texts_eq(a: &Vec<String>, b: &Vec<String>) -> (r: bool)
    ensures
        r == (texts(*a) == texts(*b)),
{
    if a.len() != b.len() {
        assert(texts(*a).len() != texts(*b).len());
        return false;
    }
    let mut i: usize = 0;
    while i < a.len()
        invariant
            i <= a@.len(),
            a@.len() == b@.len(),
            forall|k: int| 0 <= k < i ==> a@[k]@ == b@[k]@,
        decreases a.len() - i,
    {
        if a[i] != b[i] {
            assert(texts(*a)[i as int] != texts(*b)[i as int]);
            return false;
        }
        i += 1;
    }
    assert(texts(*a) =~= texts(*b));
    true
}

/// Whether two lists of kinds are the same.
pub fn kinds_eq(a: &OneOrMany<SimpleTypes>, b: &OneOrMany<SimpleTypes>) -> (r: bool)
    ensures
        r == (a@ == b@),
{
    if a.len() != b.len() {
        return false;
    }
    let mut i: usize = 0;
    while i < a.len()
        invariant
            i <= a@.len(),
            a@.len() == b@.len(),
            forall|k: int| 0 <= k < i ==> a@[k] == b@[k],
        decreases a@.len() - i,
    {
        if *a.get(i) != *b.get(i) {
            return false;
        }
        i += 1;
    }
    assert(a@ =~= b@);
    true
}

/// Whether two literals are the same value.
pub fn literal_eq(a: &Literal, b: &Literal) -> (r: bool)
    ensures
        r == (a@ == b@),
    decreases a,
{
    match (a, b) {
        (Literal::Null, Literal::Null) => true,
        (Literal::Bool(x), Literal::Bool(y)) => *x == *y,
        (Literal::Number(x), Literal::Number(y)) => *x == *y,
        (Literal::Text(x), Literal::Text(y)) => *x == *y,
        (Literal::Array(x), Literal::Array(y)) => literals_eq(x, y),
        (Literal::Object(x), Literal::Object(y)) => members_eq(x, y),
        _ => false,
    }
}

/// Whether two lists of literals are the same.
pub fn literals_eq(a: &Vec<Literal>, b: &Vec<Literal>) -> (r: bool)
    ensures
        r == (literals(*a) == literals(*b)),
    decreases a,
{
    if a.len() != b.len() {
        assert(literals(*a).len() != literals(*b).len());
        return false;
    }
    let mut i: usize = 0;
    while i < a.len()
        invariant
            i <= a@.len(),
            a@.len() == b@.len(),
            forall|k: int| 0 <= k < i ==> a@[k]@ == b@[k]@,
        decreases a.len() - i,
    {
        if !literal_eq(&a[i], &b[i]) {
            assert(literals(*a)[i as int] != literals(*b)[i as int]);
            return false;
        }
        i += 1;
    }
    assert(literals(*a) =~= literals(*b));
    true
}

/// Whether two object literals have the same members in the same order.
pub fn members_eq(a: &Vec<(String, Literal)>, b: &Vec<(String, Literal)>) -> (r: bool)
    ensures
        r == (members(*a) == members(*b)),
    decreases a,
{
    if a.len() != b.len() {
        assert(members(*a).len() != members(*b).len());
        return false;
    }
    let mut i: usize = 0;
    while i < a.len()
        invariant
            i <= a@.len(),
            a@.len() == b@.len(),
            forall|k: int| 0 <= k < i ==> a@[k].0@ == b@[k].0@ && a@[k].1@ == b@[k].1@,
        decreases a.len() - i,
    {
        if a[i].0 != b[i].0 || !literal_eq(&a[i].1, &b[i].1) {
            assert(members(*a)[i as int] != members(*b)[i as int]);
            return false;
        }
        i += 1;
    }
    assert(members(*a) =~= members(*b));
    true
}

/// Whether two optional lists of nodes are the same.
pub fn opt_nodes_eq(a: &Option<Vec<Schema>>, b: &Option<Vec<Schema>>) -> (r: bool)
    ensures
        r == (opt_nodes(*a) == opt_nodes(*b)),
    decreases a,
{
    match (a, b) {
        (Some(x), Some(y)) => nodes_eq(x, y),
        (None, None) => true,
        _ => false,
    }
}

/// Whether two schema nodes are structurally the same: every attribute of
/// the one equals that attribute of the other, all the way down.
pub fn schema_eq(a: &Schema, b: &Schema) -> (r: bool)
    ensures
        r == (a@ == b@),
    decreases a,
{
    let additional = match (&a.additional_properties, &b.additional_properties) {
        (Some(x), Some(y)) => schema_eq(&**x, &**y),
        (None, None) => true,
        _ => false,
    };
    assert(additional == (a@.additional_properties == b@.additional_properties));
    let required = match (&a.required, &b.required) {
        (Some(x), Some(y)) => texts_eq(x, y),
        (None, None) => true,
        _ => false,
    };
    let enums = match (&a.enum_, &b.enum_) {
        (Some(x), Some(y)) => literals_eq(x, y),
        (None, None) => true,
        _ => false,
    };
    let default = match (&a.default, &b.default) {
        (Some(x), Some(y)) => literal_eq(x, y),
        (None, None) => true,
        _ => false,
    };
    additional && required && enums && default && opt_text_eq(&a.ref_, &b.ref_) && kinds_eq(
        &a.type_,
        &b.type_,
    ) && opt_text_eq(&a.description, &b.description) && entries_eq(&a.properties, &b.properties)
        && nodes_eq(&a.items, &b.items) && opt_nodes_eq(&a.all_of, &b.all_of) && opt_nodes_eq(
        &a.any_of,
        &b.any_of,
    ) && entries_eq(&a.definitions, &b.definitions)
}

/// Whether two lists of nodes are the same.
pub fn nodes_eq(a: &Vec<Schema>, b: &Vec<Schema>) -> (r: bool)
    ensures
        r == (nodes(*a) == nodes(*b)),
    decreases a,
{
    if a.len() != b.len() {
        assert(nodes(*a).len() != nodes(*b).len());
        return false;
    }
    let mut i: usize = 0;
    while i < a.len()
        invariant
            i <= a@.len(),
            a@.len() == b@.len(),
            forall|k: int| 0 <= k < i ==> a@[k]@ == b@[k]@,
        decreases a.len() - i,
    {
        if !schema_eq(&a[i], &b[i]) {
            assert(nodes(*a)[i as int] != nodes(*b)[i as int]);
            return false;
        }
        i += 1;
    }
    assert(nodes(*a) =~= nodes(*b));
    true
}

/// Whether two lists of named nodes are the same.
pub fn entries_eq(a: &Vec<(String, Schema)>, b: &Vec<(String, Schema)>) -> (r: bool)
    ensures
        r == (entries(*a) == entries(*b)),
    decreases a,
{
    if a.len() != b.len() {
        assert(entries(*a).len() != entries(*b).len());
        return false;
    }
    let mut i: usize = 0;
    while i < a.len()
        invariant
            i <= a@.len(),
            a@.len() == b@.len(),
            forall|k: int| 0 <= k < i ==> a@[k].0@ == b@[k].0@ && a@[k].1@ == b@[k].1@,
        decreases a.len() - i,
    {
        if a[i].0 != b[i].0 || !schema_eq(&a[i].1, &b[i].1) {
            assert(entries(*a)[i as int] != entries(*b)[i as int]);
            return false;
        }
        i += 1;
    }
    assert(entries(*a) =~= entries(*b));
    true
}

/// Whether the entries of `list` stand in the order of their names, each
/// name before the next.
pub open spec fn sorted_keys(list: Seq<(Seq<char>, SchemaModel)>) -> bool {
    forall|i: int, j: int| 0 <= i < j < list.len() ==> text_less(list[i].0, list[j].0)
}

/// In a list in the order of its names no name occurs twice.
pub proof fn lemma_sorted_keys_distinct(list: Seq<(Seq<char>, SchemaModel)>)
    requires
        sorted_keys(list),
    ensures
        forall|i: int, j: int| 0 <= i < j < list.len() ==> list[i].0 != list[j].0,
{
    assert forall|i: int, j: int| 0 <= i < j < list.len() implies list[i].0 != list[j].0 by {
        lemma_text_less_irreflexive(list[i].0);
    }
}

/// Where an entry named `key` goes into `list`: the position of the first
/// entry whose name comes after `key`, or the length of `list` where there
/// is none.
pub open spec fn slot(list: Seq<(Seq<char>, SchemaModel)>, key: Seq<char>) -> int
    decreases list.len(),
{
    if list.len() == 0 {
        0
    } else if text_less(key, list[0].0) {
        0
    } else {
        1 + slot(list.skip(1), key)
    }
}

/// `slot` is at most the length; the entry there comes after the key, and
/// no entry before it does.
pub proof fn lemma_slot(list: Seq<(Seq<char>, SchemaModel)>, key: Seq<char>)
    ensures
        0 <= slot(list, key) <= list.len(),
        slot(list, key) < list.len() ==> text_less(key, list[slot(list, key)].0),
        forall|k: int| 0 <= k < slot(list, key) ==> !text_less(key, (#[trigger] list[k]).0),
    decreases list.len(),
{
    if list.len() > 0 && !text_less(key, list[0].0) {
        let rest = list.skip(1);
        lemma_slot(rest, key);
        assert forall|k: int| 0 <= k < slot(list, key) implies !text_less(
            key,
            (#[trigger] list[k]).0,
        ) by {
            if k > 0 {
                assert(list[k] == rest[k - 1]);
            }
        }
    }
}

/// Whether every node of `list` is well formed.
pub open spec fn all_well_formed(list: Seq<SchemaModel>) -> bool
    decreases list,
{
    forall|i: int| 0 <= i < list.len() ==> (#[trigger] list[i]).well_formed()
}

/// Whether every node that `list` names is well formed.
pub open spec fn values_well_formed(list: Seq<(Seq<char>, SchemaModel)>) -> bool
    decreases list,
{
    forall|i: int| 0 <= i < list.len() ==> (#[trigger] list[i]).1.well_formed()
}

impl SchemaModel {
    /// Whether this node is what a document read from JSON holds: here and
    /// in every node below, the properties stand in the order of their
    /// names, and so do the definitions. No name then occurs twice.
    pub open spec fn well_formed(self) -> bool
        decreases self,
    {
        &&& sorted_keys(self.properties)
        &&& sorted_keys(self.definitions)
        &&& values_well_formed(self.properties)
        &&& values_well_formed(self.definitions)
        &&& all_well_formed(self.items)
        &&& self.additional_properties is Some ==> (*self.additional_properties->0).well_formed()
        &&& self.all_of is Some ==> all_well_formed(self.all_of->0)
        &&& self.any_of is Some ==> all_well_formed(self.any_of->0)
    }
}

/// The position of the first entry of `list` named `key`, or the length of
/// `list` where there is none.
pub open spec fn position(list: Seq<(Seq<char>, SchemaModel)>, key: Seq<char>) -> int
    decreases list.len(),
{
    if list.len() == 0 {
        0
    } else if list[0].0 == key {
        0
    } else {
        1 + position(list.skip(1), key)
    }
}

/// `position` is at most the length; below it, it is the first entry that
/// has the key.
pub proof fn lemma_position(list: Seq<(Seq<char>, SchemaModel)>, key: Seq<char>)
    ensures
        0 <= position(list, key) <= list.len(),
        position(list, key) < list.len() ==> list[position(list, key)].0 == key,
        forall|k: int| 0 <= k < position(list, key) ==> (#[trigger] list[k]).0 != key,
    decreases list.len(),
{
    if list.len() > 0 && list[0].0 != key {
        let rest = list.skip(1);
        lemma_position(rest, key);
        assert forall|k: int| 0 <= k < position(list, key) implies (#[trigger] list[k]).0
            != key by {
            if k > 0 {
                assert(list[k] == rest[k - 1]);
            }
        }
    }
}

/// The first entry of `list` named `key`, if there is one.
pub open spec fn lookup(list: Seq<(Seq<char>, SchemaModel)>, key: Seq<char>) -> Option<
    SchemaModel,
> {
    let at = position(list, key);
    if 0 <= at < list.len() {
        Some(list[at].1)
    } else {
        None
    }
}

/// Finds the first entry of `list` named `key`.
pub fn find_entry(list: &Vec<(String, Schema)>, key: &str) -> (at: usize)
    ensures
        at == position(entries(*list), key@),
        at <= list@.len(),
{
    let wanted = String::from_str(key);
    let mut i: usize = 0;
    assert(entries(*list).skip(0) =~= entries(*list));
    while i < list.len()
        invariant
            i <= list@.len(),
            wanted@ == key@,
            position(entries(*list), key@) == i + position(entries(*list).skip(i as int), key@),
        decreases list.len() - i,
    {
        assert(entries(*list).skip(i as int)[0] == entries(*list)[i as int]);
        if list[i].0 == wanted {
            return i;
        }
        assert(entries(*list).skip(i as int).skip(1) =~= entries(*list).skip(i + 1));
        i += 1;
    }
    i
}

/// Finds where an entry named `key` goes into `list`.
pub fn find_slot(list: &Vec<(String, Schema)>, key: &str) -> (at: usize)
    ensures
        at == slot(entries(*list), key@),
        at <= list@.len(),
{
    let wanted = chars_of(key);
    let mut i: usize = 0;
    assert(entries(*list).skip(0) =~= entries(*list));
    while i < list.len()
        invariant
            i <= list@.len(),
            wanted@ == key@,
            slot(entries(*list), key@) == i + slot(entries(*list).skip(i as int), key@),
        decreases list.len() - i,
    {
        assert(entries(*list).skip(i as int)[0] == entries(*list)[i as int]);
        let name = chars_of(list[i].0.as_str());
        if chars_less(&wanted, &name) {
            return i;
        }
        assert(entries(*list).skip(i as int).skip(1) =~= entries(*list).skip(i + 1));
        i += 1;
    }
    i
}

/// Whether the entries of `list` stand in the order of their names, each
/// name before the next.
pub fn keys_are_sorted(list: &Vec<(String, Schema)>) -> (r: bool)
    ensures
        r == sorted_keys(entries(*list)),
{
    let mut j: usize = 1;
    while j < list.len()
        invariant
            1 <= j,
            forall|a: int, b: int|
                0 <= a < b < j && b < list@.len() ==> text_less(
                    entries(*list)[a].0,
                    entries(*list)[b].0,
                ),
        decreases list.len() - j,
    {
        let earlier = chars_of(list[j - 1].0.as_str());
        let later = chars_of(list[j].0.as_str());
        assert(entries(*list)[j - 1].0 == earlier@ && entries(*list)[j as int].0 == later@);
        if !chars_less(&earlier, &later) {
            return false;
        }
        assert forall|a: int| 0 <= a < j implies text_less(
            entries(*list)[a].0,
            entries(*list)[j as int].0,
        ) by {
            if a < j - 1 {
                lemma_text_less_transitive(
                    entries(*list)[a].0,
                    entries(*list)[j - 1].0,
                    entries(*list)[j as int].0,
                );
            }
        }
        j += 1;
    }
    true
}

/// Whether every node of `list` is well formed.
pub fn nodes_well_formed(list: &Vec<Schema>) -> (r: bool)
    ensures
        r == all_well_formed(nodes(*list)),
    decreases list,
{
    let mut i: usize = 0;
    while i < list.len()
        invariant
            i <= list@.len(),
            forall|k: int| 0 <= k < i ==> (#[trigger] nodes(*list)[k]).well_formed(),
        decreases list.len() - i,
    {
        assert(nodes(*list)[i as int] == list@[i as int]@);
        if !is_well_formed(&list[i]) {
            return false;
        }
        i += 1;
    }
    true
}

/// Whether every node that `list` names is well formed.
pub fn entries_well_formed(list: &Vec<(String, Schema)>) -> (r: bool)
    ensures
        r == values_well_formed(entries(*list)),
    decreases list,
{
    let mut i: usize = 0;
    while i < list.len()
        invariant
            i <= list@.len(),
            forall|k: int| 0 <= k < i ==> (#[trigger] entries(*list)[k]).1.well_formed(),
        decreases list.len() - i,
    {
        assert(entries(*list)[i as int].1 == list@[i as int].1@);
        if !is_well_formed(&list[i].1) {
            return false;
        }
        i += 1;
    }
    true
}

/// Whether `node` is what a document read from JSON holds: here and in
/// every node below, properties and definitions stand in the order of
/// their names.
pub fn is_well_formed(node: &Schema) -> (r: bool)
    ensures
        r == node@.well_formed(),
    decreases node,
{
    let additional = match &node.additional_properties {
        Some(values) => is_well_formed(&**values),
        None => true,
    };
    let all_of = match &node.all_of {
        Some(list) => nodes_well_formed(list),
        None => true,
    };
    let any_of = match &node.any_of {
        Some(list) => nodes_well_formed(list),
        None => true,
    };
    additional && all_of && any_of && keys_are_sorted(&node.properties) && keys_are_sorted(
        &node.definitions,
    ) && entries_well_formed(&node.properties) && entries_well_formed(&node.definitions)
        && nodes_well_formed(&node.items)
}

/// `n`, or the greatest `usize` where `n` is greater.
pub open spec fn clipped(n: nat) -> usize {
    if n > usize::MAX {
        usize::MAX
    } else {
        n as usize
    }
}

/// The number of nodes in and below the first `n` nodes of `list`.
pub open spec fn sizes(list: Seq<SchemaModel>, n: nat) -> nat
    decreases list, n,
{
    if n == 0 || n > list.len() {
        0
    } else {
        sizes(list, (n - 1) as nat) + list[n - 1].size()
    }
}

/// The number of nodes in and below the first `n` nodes that `list` names.
pub open spec fn named_sizes(list: Seq<(Seq<char>, SchemaModel)>, n: nat) -> nat
    decreases list, n,
{
    if n == 0 || n > list.len() {
        0
    } else {
        named_sizes(list, (n - 1) as nat) + list[n - 1].1.size()
    }
}

/// The number of nodes in and below an optional list of nodes.
pub open spec fn opt_sizes(list: Option<Seq<SchemaModel>>) -> nat
    decreases list, 0nat,
{
    match list {
        Some(list) => sizes(list, list.len()),
        None => 0,
    }
}

impl SchemaModel {
    /// The number of nodes of the tree: this node and every node below it.
    pub open spec fn size(self) -> nat
        decreases self, 0nat,
    {
        1 + named_sizes(self.properties, self.properties.len()) + named_sizes(
            self.definitions,
            self.definitions.len(),
        ) + sizes(self.items, self.items.len()) + (match self.additional_properties {
            Some(values) => (*values).size(),
            None => 0,
        }) + opt_sizes(self.all_of) + opt_sizes(self.any_of)
    }
}

/// `a + b`, or the greatest `usize` where the sum is greater.
pub fn add_clipped(a: usize, b: usize) -> (r: usize)
    ensures
        r == clipped((a + b) as nat),
{
    if a > usize::MAX - b {
        usize::MAX
    } else {
        a + b
    }
}

/// The number of nodes in and below `list`, as far as a `usize` counts.
pub fn count_list(list: &Vec<Schema>) -> (n: usize)
    ensures
        n == clipped(sizes(nodes(*list), list@.len() as nat)),
    decreases list,
{
    let mut n: usize = 0;
    let mut i: usize = 0;
    while i < list.len()
        invariant
            i <= list@.len(),
            n == clipped(sizes(nodes(*list), i as nat)),
        decreases list.len() - i,
    {
        assert(nodes(*list)[i as int] == list@[i as int]@);
        n = add_clipped(n, count_nodes(&list[i]));
        i += 1;
    }
    n
}

/// The number of nodes in and below the nodes that `list` names, as far
/// as a `usize` counts.
pub fn count_named(list: &Vec<(String, Schema)>) -> (n: usize)
    ensures
        n == clipped(named_sizes(entries(*list), list@.len() as nat)),
    decreases list,
{
    let mut n: usize = 0;
    let mut i: usize = 0;
    while i < list.len()
        invariant
            i <= list@.len(),
            n == clipped(named_sizes(entries(*list), i as nat)),
        decreases list.len() - i,
    {
        assert(entries(*list)[i as int].1 == list@[i as int].1@);
        n = add_clipped(n, count_nodes(&list[i].1));
        i += 1;
    }
    n
}

/// The number of nodes in and below an optional list of nodes.
pub open spec fn opt_count(list: Option<Vec<Schema>>) -> nat {
    match list {
        Some(list) => sizes(nodes(list), list@.len() as nat),
        None => 0,
    }
}

/// The number of nodes in and below an optional boxed node.
pub open spec fn boxed_count(node: Option<Box<Schema>>) -> nat {
    match node {
        Some(node) => (*node).view().size(),
        None => 0,
    }
}

/// The size of a node, over the lists that the node holds.
proof fn lemma_size(node: Schema)
    ensures
        node@.size() == 1 + named_sizes(entries(node.properties), node.properties@.len() as nat)
            + named_sizes(entries(node.definitions), node.definitions@.len() as nat) + sizes(
            nodes(node.items),
            node.items@.len() as nat,
        ) + boxed_count(node.additional_properties) + opt_count(node.all_of) + opt_count(
            node.any_of,
        ),
{
    assert(node@.properties == entries(node.properties));
    assert(node@.definitions == entries(node.definitions));
    assert(node@.items == nodes(node.items));
    assert(node@.all_of == opt_nodes(node.all_of));
    assert(node@.any_of == opt_nodes(node.any_of));
    assert(node@.additional_properties == opt_node(node.additional_properties));
    assert(opt_sizes(node@.all_of) == opt_count(node.all_of)) by {
        if let Some(list) = node.all_of {
            assert(nodes(list).len() == list@.len());
        }
    }
    assert(opt_sizes(node@.any_of) == opt_count(node.any_of)) by {
        if let Some(list) = node.any_of {
            assert(nodes(list).len() == list@.len());
        }
    }
}

/// The number of nodes of the tree `node`, as far as a `usize` counts.
pub fn count_nodes(node: &Schema) -> (n: usize)
    ensures
        n == clipped(node@.size()),
    decreases node,
{
    let additional = match &node.additional_properties {
        Some(values) => count_nodes(&**values),
        None => 0,
    };
    let all_of = match &node.all_of {
        Some(list) => count_list(list),
        None => 0,
    };
    let any_of = match &node.any_of {
        Some(list) => count_list(list),
        None => 0,
    };
    let ghost p = named_sizes(entries(node.properties), node.properties@.len() as nat);
    let ghost d = named_sizes(entries(node.definitions), node.definitions@.len() as nat);
    let ghost i = sizes(nodes(node.items), node.items@.len() as nat);
    let ghost a = boxed_count(node.additional_properties);
    let ghost x = opt_count(node.all_of);
    let ghost y = opt_count(node.any_of);
    assert(additional == clipped(a));
    assert(all_of == clipped(x));
    assert(any_of == clipped(y));
    let n = add_clipped(1, count_named(&node.properties));
    assert(n == clipped(1 + p));
    let n = add_clipped(n, count_named(&node.definitions));
    assert(n == clipped(1 + p + d));
    let n = add_clipped(n, count_list(&node.items));
    assert(n == clipped(1 + p + d + i));
    let n = add_clipped(n, additional);
    assert(n == clipped(1 + p + d + i + a));
    let n = add_clipped(n, all_of);
    assert(n == clipped(1 + p + d + i + a + x));
    let n = add_clipped(n, any_of);
    proof {
        lemma_size(*node);
    }
    n
}

} // verus!
