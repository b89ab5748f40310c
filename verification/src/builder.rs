//! Setting up a node that fills gaps.

use vstd::prelude::*;

use crate::autofill::Autofill;
use crate::config::Config;
use crate::model::Filling;
use crate::node::{Decoration, Node, NodeImpl, SpawnError};

verus! {

/// A node that is being set up, with what it votes by and what it keeps its log
/// in.
pub struct NodeBuilder<N, V, B> {
    /// The node as it is so far, or why it could not be set up.
    pub node: Result<N, SpawnError>,
    /// What the node votes by.
    pub voter: V,
    /// What the node keeps its log in.
    pub buffer: B,
}

impl<N, V, B> NodeBuilder<N, V, B> {
    /// Decorates the node. What kept it from being set up still does.
    pub fn decorated_with<D: Decoration<Decorated = N>>(self, arguments: D::Arguments) -> (builder:
        NodeBuilder<D, V, B>)
        ensures
            builder.voter == self.voter,
            builder.buffer == self.buffer,
            match self.node {
                Ok(node) => call_ensures(D::wrap, (node, arguments), builder.node),
                Err(error) => builder.node == Err::<D, SpawnError>(error),
            },
    {
        let node = match self.node {
            Ok(node) => D::wrap(node, arguments),
            Err(error) => Err(error),
        };
        NodeBuilder { node, voter: self.voter, buffer: self.buffer }
    }
}

/// Extends `NodeBuilder` to conveniently decorate a node with `Autofill`.
pub trait AutofillBuilderExt: Sized {
    /// Node type to be decorated.
    type Node: Node;

    /// Voter type.
    type Voter;

    /// Buffer type.
    type Buffer;

    /// Decorates the node with `Autofill` using the given configuration.
    fn fill_gaps<C: Config<Node = Self::Node> + 'static>(self, config: C) -> NodeBuilder<
        Autofill<Self::Node, C>,
        Self::Voter,
        Self::Buffer,
    >;
}

impl<N: NodeImpl, V, B> AutofillBuilderExt for NodeBuilder<N, V, B> {
    type Node = N;

    type Voter = V;

    type Buffer = B;

    fn fill_gaps<C: Config<Node = N> + 'static>(self, config: C) -> (builder: NodeBuilder<
        Autofill<N, C>,
        V,
        B,
    >)
        ensures
            builder.voter == self.voter,
            builder.buffer == self.buffer,
            match self.node {
                Ok(node) => {
                    &&& builder.node is Ok
                    &&& builder.node->Ok_0.decorated() == node
                    &&& builder.node->Ok_0@ == Filling::initial()
                    &&& builder.node->Ok_0.is_clock_started()
                    &&& builder.node->Ok_0.last_reading().nanos == 0
                    &&& exists|arguments: &mut C|
                        {
                            &&& *arguments == config
                            &&& *final(arguments) == builder.node->Ok_0.config()
                            &&& #[trigger] call_ensures(C::init, (arguments, &node), ())
                        }
                },
                Err(error) => builder.node == Err::<Autofill<N, C>, SpawnError>(error),
            },
    {
        self.decorated_with(config)
    }
}

} // verus!
