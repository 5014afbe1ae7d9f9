//! Merging the components of an `allOf` into one schema.

use crate::schema::{
    as_mut_vec, clone_schema, clone_texts, entries, find_entry, find_slot, lemma_position,
    lemma_slot, opt_texts, position, slot, sorted_keys, values_well_formed, OneOrMany, Schema,
    SchemaModel, SimpleTypes,
};
use crate::text::{lemma_text_less_total, lemma_text_less_transitive, text_less, texts};
use vstd::prelude::*;

verus! {

/// The required names of a schema that must satisfy both `target` and
/// `source`: those of the one followed by those of the other.
pub open spec fn merged_required(
    target: Option<Seq<Seq<char>>>,
    source: Option<Seq<Seq<char>>>,
) -> Option<Seq<Seq<char>>> {
    match (target, source) {
        (Some(t), Some(s)) => Some(t + s),
        (None, Some(s)) => Some(s),
        (_, None) => target,
    }
}

/// The kinds of `target` that `source` declares too, in the order of
/// `target`.
pub open spec fn narrowed(target: Seq<SimpleTypes>, source: Seq<SimpleTypes>) -> Seq<SimpleTypes> {
    target.filter(|kind: SimpleTypes| source.contains(kind))
}

/// `target` widened so that it also satisfies `source`.
///
/// Each property of `source` is merged into the property of `target` that
/// has its name, or added where none has: before the first property whose
/// name comes after its own, so that properties in the order of their
/// names stay in that order.
/// A reference and a description of `source` replace those of `target`. The
/// required names are those of both. Of the declared kinds only those stay
/// that `source` declares too. Every other attribute is that of `target`.
pub open spec fn merged(target: SchemaModel, source: SchemaModel) -> SchemaModel
    decreases source, source.properties.len() + 1,
{
    SchemaModel {
        properties: merged_properties(target.properties, source, source.properties.len()),
        ref_: if source.ref_ is Some {
            source.ref_
        } else {
            target.ref_
        },
        description: if source.description is Some {
            source.description
        } else {
            target.description
        },
        required: merged_required(target.required, source.required),
        type_: narrowed(target.type_, source.type_),
        ..target
    }
}

/// `list` after the first `n` properties of `source` have been merged into
/// it, one after another.
pub open spec fn merged_properties(
    list: Seq<(Seq<char>, SchemaModel)>,
    source: SchemaModel,
    n: nat,
) -> Seq<(Seq<char>, SchemaModel)>
    decreases source, n,
{
    if n == 0 || n > source.properties.len() {
        list
    } else {
        let before = merged_properties(list, source, (n - 1) as nat);
        let name = source.properties[n - 1].0;
        let node = source.properties[n - 1].1;
        let at = position(before, name);
        if 0 <= at < before.len() {
            before.update(at, (name, merged(before[at].1, node)))
        } else {
            before.insert(slot(before, name), (name, node))
        }
    }
}

/// Merges the required names `r` into `result`: where both are there,
/// `result` gets the names of `r` after its own; where only `r` is there,
/// `result` becomes a copy of it; where `r` is absent, `result` stays.
pub fn merge_option(result: &mut Option<Vec<String>>, r: &Option<Vec<String>>)
    ensures
        opt_texts(*final(result)) == merged_required(opt_texts(*old(result)), opt_texts(*r)),
{
    match r {
        None => {},
        Some(names) => {
            let mut own: Option<Vec<String>> = None;
            std::mem::swap(result, &mut own);
            match own {
                None => {
                    *result = Some(clone_texts(names));
                },
                Some(mut list) => {
                    let ghost before = texts(list);
                    let mut i: usize = 0;
                    while i < names.len()
                        invariant
                            i <= names@.len(),
                            texts(list) == before + texts(*names).take(i as int),
                        decreases names.len() - i,
                    {
                        let ghost prev = texts(list);
                        list.push(names[i].clone());
                        assert(texts(list) =~= prev.push(names@[i as int]@));
                        assert(texts(*names).take(i + 1) =~= texts(*names).take(i as int).push(
                            names@[i as int]@,
                        ));
                        i += 1;
                    }
                    assert(texts(*names).take(i as int) =~= texts(*names));
                    *result = Some(list);
                },
            }
        },
    }
}

/// Whether `kind` is among `kinds`.
pub fn has_kind(kinds: &OneOrMany<SimpleTypes>, kind: SimpleTypes) -> (r: bool)
    ensures
        r == kinds@.contains(kind),
{
    let mut i: usize = 0;
    while i < kinds.len()
        invariant
            i <= kinds@.len(),
            forall|k: int| 0 <= k < i ==> kinds@[k] != kind,
        decreases kinds@.len() - i,
    {
        if *kinds.get(i) == kind {
            return true;
        }
        i += 1;
    }
    false
}

/// The items of `own` that are among `other`, in their order.
pub fn common_kinds(own: &Vec<SimpleTypes>, other: &OneOrMany<SimpleTypes>) -> (kept: Vec<
    SimpleTypes,
>)
    ensures
        kept@ == narrowed(own@, other@),
{
    let mut kept: Vec<SimpleTypes> = Vec::new();
    let mut i: usize = 0;
    let ghost keep = |kind: SimpleTypes| other@.contains(kind);
    proof {
        reveal(Seq::filter);
        assert(own@.take(0) =~= Seq::empty());
    }
    while i < own.len()
        invariant
            i <= own@.len(),
            keep == |kind: SimpleTypes| other@.contains(kind),
            kept@ == own@.take(i as int).filter(keep),
        decreases own.len() - i,
    {
        proof {
            reveal(Seq::filter);
            assert(own@.take(i + 1).drop_last() =~= own@.take(i as int));
        }
        if has_kind(other, own[i]) {
            kept.push(own[i]);
        }
        i += 1;
    }
    assert(own@.take(i as int) =~= own@);
    kept
}

/// Widens `result` in place so that it also satisfies `r`.
pub fn merge_all_of(result: &mut Schema, r: &Schema)
    ensures
        final(result)@ == merged(old(result)@, r@),
        old(result)@.well_formed() && r@.well_formed() ==> final(result)@.well_formed(),
    decreases r,
{
    let ghost start = result@;
    proof {
        if start.well_formed() && r@.well_formed() {
            lemma_merged_well_formed(start, r@);
        }
    }
    let mut i: usize = 0;
    while i < r.properties.len()
        invariant
            i <= r.properties@.len(),
            result@ == (SchemaModel {
                properties: merged_properties(start.properties, r@, i as nat),
                ..start
            }),
        decreases r.properties.len() - i,
    {
        let ghost before = result@.properties;
        let name = &r.properties[i].0;
        let node = &r.properties[i].1;
        assert(r@.properties == entries(r.properties));
        assert(entries(r.properties).len() == r.properties@.len());
        assert(entries(r.properties)[i as int] == (r.properties@[i as int].0@, r.properties@[i as int].1@));
        assert(r@.properties[i as int] == (name@, node@));
        let at = find_entry(&result.properties, name.as_str());
        if at < result.properties.len() {
            let mut entry = result.properties.remove(at);
            assert(entry.1@ == before[at as int].1);
            merge_all_of(&mut entry.1, node);
            let merged_entry = (name.clone(), entry.1);
            result.properties.insert(at, merged_entry);
            assert(entries(result.properties) =~= before.update(
                at as int,
                (name@, merged(before[at as int].1, node@)),
            ));
        } else {
            let free = find_slot(&result.properties, name.as_str());
            result.properties.insert(free, (name.clone(), clone_schema(node)));
            assert(entries(result.properties) =~= before.insert(free as int, (name@, node@)));
        }
        i += 1;
    }
    assert(r@.properties.len() == i) by {
        assert(r@.properties == entries(r.properties));
    }
    if let Some(ref_) = &r.ref_ {
        result.ref_ = Some(ref_.clone());
    }
    if let Some(description) = &r.description {
        result.description = Some(description.clone());
    }
    merge_option(&mut result.required, &r.required);
    let kinds = as_mut_vec(&mut result.type_);
    let kept = common_kinds(kinds, &r.type_);
    *kinds = kept;
}

/// Merging keeps a schema well formed: a property of the source is merged
/// into the one property of that name, or added in the place that the
/// order of the names gives it.
pub proof fn lemma_merged_well_formed(target: SchemaModel, source: SchemaModel)
    requires
        target.well_formed(),
        source.well_formed(),
    ensures
        merged(target, source).well_formed(),
    decreases source, source.properties.len() + 1,
{
    lemma_merged_properties_well_formed(target.properties, source, source.properties.len());
}

/// Merging properties into a list keeps the list in the order of its names
/// and its nodes well formed.
proof fn lemma_merged_properties_well_formed(
    list: Seq<(Seq<char>, SchemaModel)>,
    source: SchemaModel,
    n: nat,
)
    requires
        sorted_keys(list),
        values_well_formed(list),
        source.well_formed(),
        n <= source.properties.len(),
    ensures
        sorted_keys(merged_properties(list, source, n)),
        values_well_formed(merged_properties(list, source, n)),
    decreases source, n,
{
    if n > 0 {
        lemma_merged_properties_well_formed(list, source, (n - 1) as nat);
        let before = merged_properties(list, source, (n - 1) as nat);
        let name = source.properties[n - 1].0;
        let node = source.properties[n - 1].1;
        let at = position(before, name);
        lemma_position(before, name);
        assert(node.well_formed()) by {
            assert(values_well_formed(source.properties));
            assert(source.properties[n - 1].1.well_formed());
        }
        if at < before.len() {
            assert(before[at].1.well_formed());
            lemma_merged_well_formed(before[at].1, node);
        } else {
            let free = slot(before, name);
            lemma_slot(before, name);
            let after = before.insert(free, (name, node));
            assert forall|i: int, j: int| 0 <= i < j < after.len() implies text_less(
                after[i].0,
                after[j].0,
            ) by {
                if j < free {
                    assert(after[i] == before[i] && after[j] == before[j]);
                } else if j == free {
                    assert(after[i] == before[i]);
                    lemma_text_less_total(before[i].0, name);
                } else if i < free {
                    assert(after[i] == before[i] && after[j] == before[j - 1]);
                    if j - 1 == free {
                        lemma_text_less_total(before[i].0, name);
                        lemma_text_less_transitive(before[i].0, name, before[free].0);
                    }
                } else if i == free {
                    assert(after[j] == before[j - 1]);
                    if j - 1 > free {
                        lemma_text_less_transitive(name, before[free].0, before[j - 1].0);
                    }
                } else {
                    assert(after[i] == before[i - 1] && after[j] == before[j - 1]);
                }
            }
            assert forall|i: int| 0 <= i < after.len() implies (#[trigger] after[i]).1.well_formed() by {
                if i < free {
                    assert(after[i] == before[i]);
                } else if i > free {
                    assert(after[i] == before[i - 1]);
                }
            }
        }
    }
}

/// The names that a schema requires, as a set.
pub open spec fn required_names(s: SchemaModel) -> Set<Seq<char>> {
    match s.required {
        Some(names) => names.to_set(),
        None => Set::empty(),
    }
}

/// A kind is among the narrowed kinds exactly if both sides declare it.
pub proof fn lemma_narrowed_contains(
    target: Seq<SimpleTypes>,
    source: Seq<SimpleTypes>,
    kind: SimpleTypes,
)
    ensures
        narrowed(target, source).contains(kind) <==> target.contains(kind) && source.contains(
            kind,
        ),
{
    let keep = |k: SimpleTypes| source.contains(k);
    if narrowed(target, source).contains(kind) {
        target.lemma_filter_contains_rev(keep, kind);
        let i = choose|i: int|
            0 <= i < target.filter(keep).len() && target.filter(keep)[i] == kind;
        target.lemma_filter_pred(keep, i);
    }
    if target.contains(kind) && source.contains(kind) {
        let i = choose|i: int| 0 <= i < target.len() && target[i] == kind;
        target.lemma_filter_contains(keep, i);
    }
}

/// Narrowing by one list and then by another is narrowing by what the two
/// have in common.
pub proof fn lemma_narrowed_twice(a: Seq<SimpleTypes>, b: Seq<SimpleTypes>, c: Seq<SimpleTypes>)
    ensures
        narrowed(narrowed(a, b), c) == narrowed(a, narrowed(b, c)),
    decreases a.len(),
{
    reveal(Seq::filter);
    if a.len() > 0 {
        lemma_narrowed_twice(a.drop_last(), b, c);
        lemma_narrowed_contains(b, c, a.last());
        let front = narrowed(a.drop_last(), b);
        if b.contains(a.last()) {
            assert(front.push(a.last()).drop_last() =~= front);
        }
    }
}

/// The merged schema requires a name exactly if one of the two schemas
/// requires it.
pub proof fn lemma_merged_required_is_union(target: SchemaModel, source: SchemaModel)
    ensures
        required_names(merged(target, source)) == required_names(target).union(
            required_names(source),
        ),
{
    assert(required_names(merged(target, source)) =~= required_names(target).union(
        required_names(source),
    )) by {
        match (target.required, source.required) {
            (Some(t), Some(s)) => {
                assert forall|name: Seq<char>| (t + s).contains(name) <==> t.contains(name)
                    || s.contains(name) by {
                    if t.contains(name) {
                        let i = choose|i: int| 0 <= i < t.len() && t[i] == name;
                        assert((t + s)[i] == name);
                    }
                    if s.contains(name) {
                        let i = choose|i: int| 0 <= i < s.len() && s[i] == name;
                        assert((t + s)[t.len() + i] == name);
                    }
                    if (t + s).contains(name) {
                        let i = choose|i: int| 0 <= i < (t + s).len() && (t + s)[i] == name;
                        if i < t.len() {
                            assert(t[i] == name);
                        } else {
                            assert(s[i - t.len()] == name);
                        }
                    }
                }
            },
            _ => {},
        }
    }
}

/// The merged schema declares a kind exactly if both schemas declare it.
pub proof fn lemma_merged_kinds_are_common(target: SchemaModel, source: SchemaModel)
    ensures
        forall|kind: SimpleTypes| #[trigger]
            merged(target, source).type_.contains(kind) <==> target.type_.contains(kind)
                && source.type_.contains(kind),
{
    assert forall|kind: SimpleTypes| #[trigger]
        merged(target, source).type_.contains(kind) <==> target.type_.contains(kind)
            && source.type_.contains(kind) by {
        lemma_narrowed_contains(target.type_, source.type_, kind);
    }
}

/// Merging is associative in the required names and in the declared kinds:
/// folding `c` into the merge of `a` and `b` gives the same names and kinds
/// as folding the merge of `b` and `c` into `a`.
pub proof fn lemma_merged_associative(a: SchemaModel, b: SchemaModel, c: SchemaModel)
    ensures
        merged(merged(a, b), c).required == merged(a, merged(b, c)).required,
        merged(merged(a, b), c).type_ == merged(a, merged(b, c)).type_,
{
    lemma_narrowed_twice(a.type_, b.type_, c.type_);
    match (a.required, b.required, c.required) {
        (Some(x), Some(y), Some(z)) => {
            assert((x + y) + z =~= x + (y + z));
        },
        _ => {},
    }
}

} // verus!
