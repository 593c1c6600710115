//! The syntax tree and the source ranges its nodes carry.
//!
//! A node owns its children and holds no text: a name is a span of the
//! source, read from it when the tree is shown.

pub mod binding;
pub mod block;
pub mod function;
pub mod identifier;
pub mod span;

pub use binding::{Binding, BindingView};
pub use block::Block;
pub use function::{Function, FunctionView, Parameter, ParameterView};
pub use identifier::Identifier;
pub use span::Span;

use vstd::prelude::*;
use vstd::string::StringExecFns;

verus! {

/// How many spaces one level of the tree is set in by.
pub const INDENT_WIDTH: usize = 2;

/// The spaces in front of a line at `level`.
pub open spec fn indentation(level: nat) -> Seq<char> {
    Seq::new(INDENT_WIDTH as nat * level, |i: int| ' ')
}

/// The nodes of a sequence, each as the contracts see it.
pub open spec fn views_of<T: View>(nodes: Seq<T>) -> Seq<T::V> {
    nodes.map_values(|node: T| node@)
}

/// What every node of the tree can do: write itself and what is below it,
/// a line for each node, each level set in further than the one above.
pub trait Show {
    /// The lines that `show` writes for the node at `level`.
    spec fn shown(&self, source: Seq<char>, level: nat) -> Seq<char>;

    /// Whether every name of the subtree lies in a text of `len` characters.
    spec fn inside(&self, len: nat) -> bool;

    /// How many levels the subtree has below the node.
    spec fn height(&self) -> nat;

    /// How far a line at `level` is set in.
    fn get_indent(level: usize) -> (indent: usize)
        requires
            INDENT_WIDTH * level <= usize::MAX,
        ensures
            indent == INDENT_WIDTH * level,
    {
        INDENT_WIDTH * level
    }

    /// Appends the lines of the node and of what is below it to `buffer`.
    fn show(&self, source: &str, level: usize, buffer: &mut String)
        requires
            self.inside(source@.len()),
            INDENT_WIDTH * (level + self.height()) <= usize::MAX,
        ensures
            final(buffer)@ == old(buffer)@ + self.shown(source@, level as nat),
    ;
}

/// Appends `indent` spaces to `buffer`.
pub fn pad(buffer: &mut String, indent: usize)
    ensures
        final(buffer)@ == old(buffer)@ + Seq::new(indent as nat, |i: int| ' '),
{
    let mut done: usize = 0;
    proof {
        assert(buffer@ =~= old(buffer)@ + Seq::new(0, |i: int| ' '));
    }
    while done < indent
        invariant
            done <= indent,
            buffer@ == old(buffer)@ + Seq::new(done as nat, |i: int| ' '),
        decreases indent - done,
    {
        let ghost before = buffer@;
        buffer.append(" ");
        proof {
            reveal_strlit(" ");
            assert(buffer@ =~= old(buffer)@ + Seq::new((done + 1) as nat, |i: int| ' '));
        }
        done = done + 1;
    }
}

} // verus!
