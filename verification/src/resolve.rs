//! Following references and merging `allOf` compositions.

use crate::error::ExpandError;
use crate::expander::{Expander, Resolved};
use crate::ident::{pascal_name, text_result, to_type_name};
use crate::merge::{lemma_merged_well_formed, merge_all_of, merged};
use crate::schema::{
    add_clipped, all_well_formed, clipped, count_nodes, empty_model, entries, find_entry, lemma_position, lookup, nodes, opt_nodes, opt_sizes, position, sizes,
    values_well_formed, Schema, SchemaModel,
};
use crate::text::{path_segments, segments, str_eq, texts};
use vstd::prelude::*;

verus! {

/// Where one segment of a reference leads from `current`: `#` leads to the
/// root, `definitions` stays, and any other segment names a definition of
/// `current`.
pub open spec fn stepped(root: SchemaModel, current: SchemaModel, segment: Seq<char>) -> Result<
    SchemaModel,
    ExpandError,
> {
    if segment == "#"@ {
        Ok(root)
    } else if segment == "definitions"@ {
        Ok(current)
    } else {
        match lookup(current.definitions, segment) {
            Some(node) => Ok(node),
            None => Err(ExpandError::UnresolvedReference),
        }
    }
}

/// Where the segments `parts`, taken in order from the root, lead.
pub open spec fn followed(root: SchemaModel, parts: Seq<Seq<char>>) -> Result<
    SchemaModel,
    ExpandError,
>
    decreases parts.len(),
{
    if parts.len() == 0 {
        Ok(root)
    } else {
        match followed(root, parts.drop_last()) {
            Ok(current) => stepped(root, current, parts.last()),
            Err(e) => Err(e),
        }
    }
}

/// The node that `reference` names in the document `root`.
pub open spec fn referenced(root: SchemaModel, reference: Seq<char>) -> Result<
    SchemaModel,
    ExpandError,
> {
    followed(root, segments(reference))
}

/// The type name that `reference` stands for: the name of the root for
/// `#`, and the last segment in pascal case for any other.
pub open spec fn ref_type_name(root_name: Option<Seq<char>>, reference: Seq<char>) -> Result<
    Seq<char>,
    ExpandError,
> {
    if reference == "#"@ {
        match root_name {
            Some(name) => pascal_name(name),
            None => Err(ExpandError::MissingRootName),
        }
    } else {
        pascal_name(segments(reference).last())
    }
}

/// `node`, or what its reference names.
pub open spec fn dereferenced(root: SchemaModel, node: SchemaModel) -> Result<
    SchemaModel,
    ExpandError,
> {
    match node.ref_ {
        Some(reference) => referenced(root, reference),
        None => Ok(node),
    }
}

/// How many compositions, one inside another, are entered while `node` is
/// resolved in the document `root`: as many as the document and the node
/// have nodes, as far as a `usize` counts. Every composition entered is a
/// node of one of the two trees, so a composition that goes deeper
/// contains itself.
#[verifier::opaque]
pub open spec fn depth_limit(root: SchemaModel, node: SchemaModel) -> nat {
    clipped((clipped(root.size()) + clipped(node.size())) as nat) as nat
}

/// `node` of the document `root` ready to be read.
pub open spec fn resolution(root: SchemaModel, node: SchemaModel) -> Result<
    SchemaModel,
    ExpandError,
> {
    resolved(root, node, depth_limit(root, node))
}

/// `node` ready to be read: its reference followed, and where what is found
/// has a non-empty `allOf`, the merge of its components, each resolved in
/// turn. `depth` is how many compositions may still be entered.
pub open spec fn resolved(root: SchemaModel, node: SchemaModel, depth: nat) -> Result<
    SchemaModel,
    ExpandError,
>
    decreases depth, 0nat,
{
    match dereferenced(root, node) {
        Err(e) => Err(e),
        Ok(target) => {
            if target.all_of is Some && target.all_of->0.len() > 0 {
                if depth == 0 {
                    Err(ExpandError::TooDeep)
                } else {
                    folded(
                        root,
                        target.all_of->0,
                        target.all_of->0.len(),
                        (depth - 1) as nat,
                    )
                }
            } else {
                Ok(target)
            }
        },
    }
}

/// The first `n` of `parts`, each resolved, merged from the left: the
/// first is the seed, and every later one is merged into what came before.
pub open spec fn folded(root: SchemaModel, parts: Seq<SchemaModel>, n: nat, depth: nat) -> Result<
    SchemaModel,
    ExpandError,
>
    decreases depth, n,
{
    if n == 0 || n > parts.len() {
        Ok(empty_model())
    } else if n == 1 {
        resolved(root, parts[0], depth)
    } else {
        match folded(root, parts, (n - 1) as nat, depth) {
            Err(e) => Err(e),
            Ok(seed) => match resolved(root, parts[n - 1], depth) {
                Err(e) => Err(e),
                Ok(part) => Ok(merged(seed, part)),
            },
        }
    }
}

/// Once a segment fails, the reference fails with that error.
proof fn lemma_followed_error(
    root: SchemaModel,
    parts: Seq<Seq<char>>,
    k: int,
    e: ExpandError,
)
    requires
        0 <= k <= parts.len(),
        followed(root, parts.take(k)) == Err::<SchemaModel, ExpandError>(e),
    ensures
        followed(root, parts) == Err::<SchemaModel, ExpandError>(e),
    decreases parts.len() - k,
{
    if k < parts.len() {
        assert(parts.take(k + 1).drop_last() =~= parts.take(k));
        lemma_followed_error(root, parts, k + 1, e);
    } else {
        assert(parts.take(k) =~= parts);
    }
}

/// Once a component fails, the whole composition fails with that error.
proof fn lemma_folded_error(
    root: SchemaModel,
    parts: Seq<SchemaModel>,
    n: nat,
    depth: nat,
    e: ExpandError,
)
    requires
        1 <= n <= parts.len(),
        folded(root, parts, n, depth) == Err::<SchemaModel, ExpandError>(e),
    ensures
        folded(root, parts, parts.len(), depth) == Err::<SchemaModel, ExpandError>(e),
    decreases parts.len() - n,
{
    if n < parts.len() {
        lemma_folded_error(root, parts, n + 1, depth, e);
    }
}

/// What a reference names in a well-formed document is well formed.
proof fn lemma_followed_well_formed(root: SchemaModel, parts: Seq<Seq<char>>)
    requires
        root.well_formed(),
        followed(root, parts) is Ok,
    ensures
        followed(root, parts)->Ok_0.well_formed(),
    decreases parts.len(),
{
    if parts.len() > 0 {
        lemma_followed_well_formed(root, parts.drop_last());
        let current = followed(root, parts.drop_last())->Ok_0;
        let at = position(current.definitions, parts.last());
        lemma_position(current.definitions, parts.last());
        if at < current.definitions.len() {
            assert(values_well_formed(current.definitions));
            assert(current.definitions[at].1.well_formed());
        }
    }
}

/// Resolving a well-formed node of a well-formed document gives a
/// well-formed node.
pub proof fn lemma_resolved_well_formed(root: SchemaModel, node: SchemaModel, depth: nat)
    requires
        root.well_formed(),
        node.well_formed(),
        resolved(root, node, depth) is Ok,
    ensures
        resolved(root, node, depth)->Ok_0.well_formed(),
    decreases depth, 0nat,
{
    if node.ref_ is Some {
        lemma_followed_well_formed(root, segments(node.ref_->0));
    }
    let target = dereferenced(root, node)->Ok_0;
    if target.all_of is Some && target.all_of->0.len() > 0 {
        lemma_folded_well_formed(
            root,
            target.all_of->0,
            target.all_of->0.len(),
            (depth - 1) as nat,
        );
    }
}

/// Merging well-formed components of a well-formed document gives a
/// well-formed node.
proof fn lemma_folded_well_formed(
    root: SchemaModel,
    parts: Seq<SchemaModel>,
    n: nat,
    depth: nat,
)
    requires
        root.well_formed(),
        all_well_formed(parts),
        1 <= n <= parts.len(),
        folded(root, parts, n, depth) is Ok,
    ensures
        folded(root, parts, n, depth)->Ok_0.well_formed(),
    decreases depth, n,
{
    if n == 1 {
        lemma_resolved_well_formed(root, parts[0], depth);
    } else {
        lemma_folded_well_formed(root, parts, (n - 1) as nat, depth);
        lemma_resolved_well_formed(root, parts[n - 1], depth);
        lemma_merged_well_formed(
            folded(root, parts, (n - 1) as nat, depth)->Ok_0,
            resolved(root, parts[n - 1], depth)->Ok_0,
        );
    }
}

/// A reference fails in one way only: a segment names no definition.
pub proof fn lemma_reference_error(root: SchemaModel, parts: Seq<Seq<char>>)
    ensures
        followed(root, parts) matches Err(e) ==> e == ExpandError::UnresolvedReference,
    decreases parts.len(),
{
    if parts.len() > 0 {
        lemma_reference_error(root, parts.drop_last());
    }
}

/// Resolving fails in two ways only: a reference names no definition, or
/// the compositions go too deep.
pub proof fn lemma_resolution_error(root: SchemaModel, node: SchemaModel, depth: nat)
    ensures
        resolved(root, node, depth) matches Err(e) ==> e == ExpandError::UnresolvedReference || e
            == ExpandError::TooDeep,
    decreases depth, 0nat,
{
    if node.ref_ is Some {
        lemma_reference_error(root, segments(node.ref_->0));
    }
    if dereferenced(root, node) is Ok {
        let target = dereferenced(root, node)->Ok_0;
        if target.all_of is Some && target.all_of->0.len() > 0 && depth > 0 {
            lemma_composition_error(
                root,
                target.all_of->0,
                target.all_of->0.len(),
                (depth - 1) as nat,
            );
        }
    }
}

proof fn lemma_composition_error(root: SchemaModel, parts: Seq<SchemaModel>, n: nat, depth: nat)
    requires
        n <= parts.len(),
    ensures
        folded(root, parts, n, depth) matches Err(e) ==> e == ExpandError::UnresolvedReference
            || e == ExpandError::TooDeep,
    decreases depth, n,
{
    if n == 1 {
        lemma_resolution_error(root, parts[0], depth);
    } else if n > 1 {
        lemma_composition_error(root, parts, (n - 1) as nat, depth);
        lemma_resolution_error(root, parts[n - 1], depth);
    }
}

/// A node without a reference and without components resolves to itself,
/// whatever the document.
pub proof fn lemma_plain_node_resolves(root: SchemaModel, node: SchemaModel, depth: nat)
    requires
        node.ref_ is None,
        node.all_of is None || node.all_of->0.len() == 0,
    ensures
        resolved(root, node, depth) == Ok::<SchemaModel, ExpandError>(node),
{
}

/// Whether `node` and its components, all the way down, stand in place:
/// none of them is a reference.
pub open spec fn inline(node: SchemaModel) -> bool
    decreases node,
{
    &&& node.ref_ is None
    &&& node.all_of is Some ==> forall|i: int|
        0 <= i < node.all_of->0.len() ==> inline(#[trigger] node.all_of->0[i])
}

proof fn lemma_sizes_bound(list: Seq<SchemaModel>, n: nat, i: int)
    requires
        0 <= i < n <= list.len(),
    ensures
        sizes(list, n) >= list[i].size(),
    decreases n,
{
    if i < n - 1 {
        lemma_sizes_bound(list, (n - 1) as nat, i);
    }
}

proof fn lemma_inline_resolves(root: SchemaModel, node: SchemaModel, depth: nat)
    requires
        inline(node),
        depth + 1 >= node.size(),
    ensures
        resolved(root, node, depth) is Ok,
    decreases depth, 0nat,
{
    if node.all_of is Some && node.all_of->0.len() > 0 {
        let parts = node.all_of->0;
        assert(node.size() >= 1 + sizes(parts, parts.len())) by {
            assert(opt_sizes(node.all_of) == sizes(parts, parts.len()));
        }
        assert forall|i: int| 0 <= i < parts.len() implies depth >= (#[trigger] parts[i]).size() by {
            lemma_sizes_bound(parts, parts.len(), i);
        }
        assert(depth >= parts[0].size());
        lemma_inline_folds(root, parts, parts.len(), (depth - 1) as nat);
    }
}

proof fn lemma_inline_folds(root: SchemaModel, parts: Seq<SchemaModel>, n: nat, depth: nat)
    requires
        1 <= n <= parts.len(),
        forall|i: int| 0 <= i < parts.len() ==> inline(#[trigger] parts[i]),
        forall|i: int| 0 <= i < parts.len() ==> depth + 1 >= (#[trigger] parts[i]).size(),
    ensures
        folded(root, parts, n, depth) is Ok,
    decreases depth, n,
{
    if n == 1 {
        lemma_inline_resolves(root, parts[0], depth);
    } else {
        lemma_inline_folds(root, parts, (n - 1) as nat, depth);
        lemma_inline_resolves(root, parts[n - 1], depth);
    }
}

/// A node whose compositions all stand in place resolves, however deep
/// they go: the limit on the depth stops only what goes through
/// references.
pub proof fn lemma_inline_composition_resolves(root: SchemaModel, node: SchemaModel)
    requires
        inline(node),
        root.size() + node.size() <= usize::MAX,
    ensures
        resolution(root, node) is Ok,
{
    reveal(depth_limit);
    lemma_inline_resolves(root, node, depth_limit(root, node));
}

/// What a `Result` that holds a borrowed node is seen as.
pub open spec fn node_result(r: Result<&Schema, ExpandError>) -> Result<SchemaModel, ExpandError> {
    match r {
        Ok(node) => Ok(node@),
        Err(e) => Err(e),
    }
}

/// What a `Result` that holds a resolved node is seen as.
pub open spec fn resolved_result(r: Result<Resolved, ExpandError>) -> Result<
    SchemaModel,
    ExpandError,
> {
    match r {
        Ok(node) => Ok(node@),
        Err(e) => Err(e),
    }
}

impl<'r> Expander<'r> {
    /// The type name that the reference `s` stands for.
    ///
    /// Fails with `MissingRootName` where `s` is `#` and the root has no
    /// name, and with `NameTooLong` where the name to convert is too long.
    pub fn type_ref(&self, s: &str) -> (r: Result<String, ExpandError>)
        ensures
            text_result(r) == ref_type_name(self.name(), s@),
    {
        if str_eq(s, "#") {
            match self.root_name {
                Some(name) => to_type_name(name),
                None => Err(ExpandError::MissingRootName),
            }
        } else {
            let parts = path_segments(s);
            let last = &parts[parts.len() - 1];
            assert(texts(parts).last() == last@);
            to_type_name(last.as_str())
        }
    }

    /// The node that the reference `s` names.
    ///
    /// Fails with `UnresolvedReference` at the first segment that names no
    /// definition of the node reached so far.
    pub fn schema_ref(&self, s: &str) -> (r: Result<&'r Schema, ExpandError>)
        ensures
            node_result(r) == referenced(self.root@, s@),
    {
        let parts = path_segments(s);
        let mut current: &'r Schema = self.root;
        let mut i: usize = 0;
        assert(texts(parts).take(0) =~= Seq::empty());
        while i < parts.len()
            invariant
                i <= parts@.len(),
                texts(parts) == segments(s@),
                followed(self.root@, texts(parts).take(i as int)) == Ok::<
                    SchemaModel,
                    ExpandError,
                >(current@),
            decreases parts.len() - i,
        {
            let part = parts[i].as_str();
            proof {
                assert(texts(parts).take(i + 1).drop_last() =~= texts(parts).take(i as int));
                assert(texts(parts).take(i + 1).last() == part@);
            }
            if str_eq(part, "#") {
                current = self.root;
            } else if str_eq(part, "definitions") {
            } else {
                let at = find_entry(&current.definitions, part);
                assert(current@.definitions == entries(current.definitions));
                if at < current.definitions.len() {
                    current = &current.definitions[at].1;
                } else {
                    proof {
                        lemma_followed_error(
                            self.root@,
                            texts(parts),
                            i + 1,
                            ExpandError::UnresolvedReference,
                        );
                    }
                    return Err(ExpandError::UnresolvedReference);
                }
            }
            i += 1;
        }
        assert(texts(parts).take(i as int) =~= texts(parts));
        Ok(current)
    }

    /// `schema` ready to be read: its reference followed and its `allOf`
    /// merged.
    ///
    /// Fails with `UnresolvedReference` where a reference names no
    /// definition, and with `TooDeep` where the compositions go deeper than
    /// `depth_limit`, as a composition that contains itself does.
    pub fn schema<'a>(&self, schema: &'a Schema) -> (r: Result<Resolved<'a>, ExpandError>) where
        'r: 'a,

        ensures
            resolved_result(r) == resolution(self.root@, schema@),
            self.root@.well_formed() && schema@.well_formed() ==> (r matches Ok(node)
                ==> node@.well_formed()),
    {
        let target: &'a Schema = match &schema.ref_ {
            Some(reference) => match self.schema_ref(reference.as_str()) {
                Ok(node) => node,
                Err(e) => {
                    return Err(e);
                },
            },
            None => schema,
        };
        let composed = match &target.all_of {
            Some(parts) => parts.len() > 0,
            None => false,
        };
        proof {
            assert(target@.all_of == opt_nodes(target.all_of));
            if self.root@.well_formed() && schema@.well_formed() && resolution(
                self.root@,
                schema@,
            ) is Ok {
                lemma_resolved_well_formed(
                    self.root@,
                    schema@,
                    depth_limit(self.root@, schema@),
                );
            }
        }
        if composed {
            proof {
                reveal(depth_limit);
            }
            let depth = add_clipped(count_nodes(self.root), count_nodes(schema));
            self.schema_within(schema, depth)
        } else {
            Ok(Resolved::Borrowed(target))
        }
    }

    /// `schema` ready to be read, entering at most `depth` compositions.
    pub fn schema_within<'a>(&self, schema: &'a Schema, depth: usize) -> (r: Result<
        Resolved<'a>,
        ExpandError,
    >) where 'r: 'a
        ensures
            resolved_result(r) == resolved(self.root@, schema@, depth as nat),
            self.root@.well_formed() && schema@.well_formed() ==> (r matches Ok(node)
                ==> node@.well_formed()),
        decreases depth,
    {
        proof {
            if self.root@.well_formed() && schema@.well_formed() && resolved(
                self.root@,
                schema@,
                depth as nat,
            ) is Ok {
                lemma_resolved_well_formed(self.root@, schema@, depth as nat);
            }
        }
        let target: &'a Schema = match &schema.ref_ {
            Some(reference) => match self.schema_ref(reference.as_str()) {
                Ok(node) => node,
                Err(e) => {
                    return Err(e);
                },
            },
            None => schema,
        };
        assert(dereferenced(self.root@, schema@) == Ok::<SchemaModel, ExpandError>(target@));
        match &target.all_of {
            Some(parts) => {
                if parts.len() == 0 {
                    return Ok(Resolved::Borrowed(target));
                }
                assert(target@.all_of == Some(nodes(*parts)));
                if depth == 0 {
                    return Err(ExpandError::TooDeep);
                }
                let mut merged_node = match self.schema_within(&parts[0], depth - 1) {
                    Ok(seed) => seed.into_owned(),
                    Err(e) => {
                        proof {
                            lemma_folded_error(self.root@, nodes(*parts), 1, (depth - 1) as nat, e);
                        }
                        return Err(e);
                    },
                };
                let mut i: usize = 1;
                while i < parts.len()
                    invariant
                        1 <= i <= parts@.len(),
                        depth > 0,
                        dereferenced(self.root@, schema@) == Ok::<SchemaModel, ExpandError>(
                            target@,
                        ),
                        target@.all_of == Some(nodes(*parts)),
                        folded(self.root@, nodes(*parts), i as nat, (depth - 1) as nat) == Ok::<
                            SchemaModel,
                            ExpandError,
                        >(merged_node@),
                    decreases parts.len() - i,
                {
                    match self.schema_within(&parts[i], depth - 1) {
                        Ok(part) => {
                            merge_all_of(&mut merged_node, part.get());
                        },
                        Err(e) => {
                            proof {
                                lemma_folded_error(
                                    self.root@,
                                    nodes(*parts),
                                    (i + 1) as nat,
                                    (depth - 1) as nat,
                                    e,
                                );
                            }
                            return Err(e);
                        },
                    }
                    i += 1;
                }
                Ok(Resolved::Owned(merged_node))
            },
            None => Ok(Resolved::Borrowed(target)),
        }
    }
}

} // verus!
