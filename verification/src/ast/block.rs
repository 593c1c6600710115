use super::binding::{binding_inside, binding_lines, Binding, BindingView};
use super::{indentation, pad, views_of, Show, INDENT_WIDTH};
use vstd::prelude::*;
use vstd::string::StringExecFns;

verus! {

/// Statements in the order in which they were written.
#[derive(Debug)]
pub struct Block {
    statements: Vec<Binding>,
}

impl View for Block {
    type V = Seq<BindingView>;

    closed spec fn view(&self) -> Seq<BindingView> {
        views_of(self.statements@)
    }
}

/// The lines of statements at `level`, one statement after the other.
pub open spec fn statements_lines(statements: Seq<BindingView>, source: Seq<char>, level: nat) -> Seq<
    char,
>
    decreases statements.len(),
{
    if statements.len() == 0 {
        Seq::empty()
    } else {
        statements_lines(statements.drop_last(), source, level) + binding_lines(
            statements.last(),
            source,
            level,
        )
    }
}

/// The lines of a block at `level`: one that names the node, then its
/// statements, one level further in.
pub open spec fn block_lines(statements: Seq<BindingView>, source: Seq<char>, level: nat) -> Seq<
    char,
> {
    indentation(level) + "Block\n"@ + statements_lines(statements, source, level + 1)
}

/// Whether every name in the statements lies in a text of `len` characters.
pub open spec fn block_inside(statements: Seq<BindingView>, len: nat) -> bool {
    forall|i: int| 0 <= i < statements.len() ==> binding_inside(#[trigger] statements[i], len)
}

impl Block {
    pub fn new(statements: Vec<Binding>) -> (block: Block)
        ensures
            block@ == views_of(statements@),
    {
        Block { statements }
    }

    /// The statements, in order.
    pub fn statements(&self) -> (statements: &Vec<Binding>)
        ensures
            views_of(statements@) == self@,
    {
        &self.statements
    }
}

impl Show for Block {
    open spec fn shown(&self, source: Seq<char>, level: nat) -> Seq<char> {
        block_lines(self@, source, level)
    }

    open spec fn inside(&self, len: nat) -> bool {
        block_inside(self@, len)
    }

    open spec fn height(&self) -> nat {
        2
    }

    fn show(&self, source: &str, level: usize, buffer: &mut String) {
        let indent = Self::get_indent(level);
        pad(buffer, indent);
        buffer.append("Block\n");
        let ghost head = buffer@;
        let mut done: usize = 0;
        while done < self.statements.len()
            invariant
                done <= self.statements.len(),
                self.inside(source@.len()),
                INDENT_WIDTH * (level + self.height()) <= usize::MAX,
                buffer@ == head + statements_lines(self@.take(done as int), source@, level as nat + 1),
            decreases self.statements.len() - done,
        {
            proof {
                assert(self@[done as int] == self.statements@[done as int]@);
                assert(self@.take(done + 1).drop_last() =~= self@.take(done as int));
                assert(self@.take(done + 1).last() == self@[done as int]);
            }
            self.statements[done].show(source, level + 1, buffer);
            done = done + 1;
        }
        proof {
            assert(self@.take(done as int) =~= self@);
            assert(buffer@ =~= old(buffer)@ + block_lines(self@, source@, level as nat));
        }
    }
}

} // verus!
