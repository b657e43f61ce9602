//! What holds of a node's annotations whatever is attached in whatever order.

use vstd::prelude::*;
use crate::ast::ast::{Annotation, LoopInfo, Node, Stored, Type};

verus! {

/// Whether `after` is `before` with `annotation` attached: the effect of one
/// call of `add_annotation`.
pub open spec fn attached<T, U: Annotation>(before: Node<T>, annotation: U, after: Node<T>) -> bool {
    &&& after.node == before.node
    &&& after.table() == before.table().insert(U::slot(), annotation.stored())
}

/// A node without annotations carries none of any kind.
pub proof fn lemma_fresh_node_has_none<T, U: Annotation>(node: Node<T>)
    requires
        node.table() == Map::<u64, Stored>::empty(),
    ensures
        node.annotation::<U>() is None,
{
}

/// An annotation that was attached is found again, unchanged.
pub proof fn lemma_attached_is_found<T, U: Annotation>(before: Node<T>, annotation: U, after: Node<T>)
    requires
        attached(before, annotation, after),
    ensures
        after.annotation::<U>() == Some(annotation),
{
    annotation.lemma_restore_stored();
}

/// Attaching an annotation leaves those of every other slot as they were.
pub proof fn lemma_attached_keeps_others<T, U: Annotation, V: Annotation>(
    before: Node<T>,
    annotation: U,
    after: Node<T>,
)
    requires
        attached(before, annotation, after),
        U::slot() != V::slot(),
    ensures
        after.annotation::<V>() == before.annotation::<V>(),
{
}

/// Of two annotations of one kind the later replaces the earlier: the node
/// is as if only the later had been attached.
pub proof fn lemma_last_attached_wins<T, U: Annotation>(
    before: Node<T>,
    first: U,
    between: Node<T>,
    second: U,
    after: Node<T>,
)
    requires
        attached(before, first, between),
        attached(between, second, after),
    ensures
        attached(before, second, after),
        after.annotation::<U>() == Some(second),
{
    second.lemma_restore_stored();
    assert(before.table().insert(U::slot(), first.stored()).insert(U::slot(), second.stored())
        =~= before.table().insert(U::slot(), second.stored()));
}

/// A stored value is read back only as the kind it was stored as, also
/// where it is looked for in another kind's name.
pub proof fn lemma_kinds_do_not_mix(kind: Type, info: LoopInfo)
    ensures
        Type::slot() != LoopInfo::slot(),
        LoopInfo::restored(kind.stored()) is None,
        Type::restored(info.stored()) is None,
{
}

} // verus!
