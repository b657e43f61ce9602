//! Nodes that carry annotations: values of separately declared kinds, at most
//! one of each kind per node, found again by their kind.

use vstd::prelude::*;
use std::collections::HashMap;
use std::marker::PhantomData;

verus! {

/// The type of an expression.
#[derive(Debug, Clone, Copy, PartialEq, Eq, Structural)]
pub enum Type {
    Int,
    Float,
}

/// What is known of a loop.
#[derive(Debug, Clone, Copy, PartialEq, Eq, Structural)]
pub struct LoopInfo {
    pub definitely_terminates: bool,
}

/// An annotation as a node stores it, whatever its kind.
#[derive(Debug, Clone, Copy, PartialEq, Eq, Structural)]
pub enum Stored {
    Type(Type),
    Loop(LoopInfo),
}

/// A kind of annotation. Each kind has a slot of its own in a node's table,
/// and a stored value can be read back only as the kind it was stored as.
pub trait Annotation: Sized {
    /// The slot of this kind in a node's table.
    spec fn slot() -> u64;

    /// The annotation as it is stored.
    spec fn stored(self) -> Stored;

    /// The annotation that a stored value holds, if it is of this kind.
    spec fn restored(value: Stored) -> Option<Self>;

    /// What is stored can be read back, unchanged.
    proof fn lemma_restore_stored(self)
        ensures
            Self::restored(self.stored()) == Some(self),
    ;

    /// Computes `slot`.
    fn slot_of() -> (slot: u64)
        ensures
            slot == Self::slot(),
    ;

    /// Computes `stored`.
    fn store(self) -> (value: Stored)
        ensures
            value == self.stored(),
    ;

    /// Computes `restored`.
    fn restore(value: &Stored) -> (annotation: Option<&Self>)
        ensures
            match annotation {
                Some(found) => Self::restored(*value) == Some(*found),
                None => Self::restored(*value) is None,
            },
    ;
}

/// The identity of an annotation kind: one key for each kind that is
/// declared.
pub enum AnnotationKey<T: Annotation> {
    Type,
    Loop,
    Phantom(PhantomData<T>),
}

impl<T: Annotation> AnnotationKey<T> {
    /// The slot that the key stands for.
    pub open spec fn index(self) -> u64 {
        match self {
            AnnotationKey::Type => 0,
            AnnotationKey::Loop => 1,
            AnnotationKey::Phantom(_) => 2,
        }
    }

    /// Computes `index`.
    pub fn slot(&self) -> (slot: u64)
        ensures
            slot == self.index(),
    {
        match self {
            AnnotationKey::Type => 0,
            AnnotationKey::Loop => 1,
            AnnotationKey::Phantom(_) => 2,
        }
    }
}

impl AnnotationKey<Type> {
    /// The key of type annotations.
    pub fn key() -> (key: Self)
        ensures
            key is Type,
            key.index() == Type::slot(),
    {
        AnnotationKey::Type
    }
}

impl AnnotationKey<LoopInfo> {
    /// The key of loop annotations.
    pub fn key() -> (key: Self)
        ensures
            key is Loop,
            key.index() == LoopInfo::slot(),
    {
        AnnotationKey::Loop
    }
}

impl Annotation for Type {
    open spec fn slot() -> u64 {
        0
    }

    open spec fn stored(self) -> Stored {
        Stored::Type(self)
    }

    open spec fn restored(value: Stored) -> Option<Self> {
        match value {
            Stored::Type(found) => Some(found),
            _ => None,
        }
    }

    proof fn lemma_restore_stored(self) {
    }

    fn slot_of() -> (slot: u64) {
        0
    }

    fn store(self) -> (value: Stored) {
        Stored::Type(self)
    }

    fn restore(value: &Stored) -> (annotation: Option<&Self>) {
        match value {
            Stored::Type(found) => Some(found),
            _ => None,
        }
    }
}

impl Annotation for LoopInfo {
    open spec fn slot() -> u64 {
        1
    }

    open spec fn stored(self) -> Stored {
        Stored::Loop(self)
    }

    open spec fn restored(value: Stored) -> Option<Self> {
        match value {
            Stored::Loop(found) => Some(found),
            _ => None,
        }
    }

    proof fn lemma_restore_stored(self) {
    }

    fn slot_of() -> (slot: u64) {
        1
    }

    fn store(self) -> (value: Stored) {
        Stored::Loop(self)
    }

    fn restore(value: &Stored) -> (annotation: Option<&Self>) {
        match value {
            Stored::Loop(found) => Some(found),
            _ => None,
        }
    }
}

/// A payload together with the annotations attached to it.
pub struct Node<T> {
    pub node: T,
    pub annotations: HashMap<u64, Stored>,
}

impl<T> Node<T> {
    /// The table of annotations: what is stored in each slot that is taken.
    pub open spec fn table(&self) -> Map<u64, Stored> {
        self.annotations@
    }

    /// The annotation of kind `U` that the node carries, if there is one:
    /// what is stored in the slot of `U`, provided that it is of kind `U`.
    pub open spec fn annotation<U: Annotation>(&self) -> Option<U> {
        if self.table().contains_key(U::slot()) {
            U::restored(self.table()[U::slot()])
        } else {
            None
        }
    }

    /// Wraps a payload into a node without annotations.
    pub fn new(node: T) -> (wrapped: Node<T>)
        ensures
            wrapped.node == node,
            wrapped.table() == Map::<u64, Stored>::empty(),
    {
        Node { node, annotations: HashMap::new() }
    }

    /// Attaches `annotation`, in place of the one of its kind that the node
    /// may carry already. The payload and the annotations of other slots
    /// stay as they are.
    pub fn add_annotation<U: Annotation>(&mut self, annotation: U)
        ensures
            final(self).node == old(self).node,
            final(self).table() == old(self).table().insert(U::slot(), annotation.stored()),
    {
        broadcast use vstd::std_specs::hash::group_hash_axioms;

        self.annotations.insert(U::slot_of(), annotation.store());
    }

    /// The annotation of kind `U` that the node carries, if there is one.
    pub fn get_annotation<U: Annotation>(&self) -> (found: Option<&U>)
        ensures
            match found {
                Some(annotation) => self.annotation::<U>() == Some(*annotation),
                None => self.annotation::<U>() is None,
            },
    {
        broadcast use vstd::std_specs::hash::group_hash_axioms;

        let slot = U::slot_of();
        match self.annotations.get(&slot) {
            Some(value) => U::restore(value),
            None => None,
        }
    }
}

} // verus!
