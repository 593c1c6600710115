use super::identifier::{identifier_line, Identifier};
use super::span::Span;
use super::{indentation, pad, Show};
use vstd::prelude::*;
use vstd::string::StringExecFns;

verus! {

/// A local declaration as the contracts see it.
pub struct BindingView {
    pub name: Span,
    pub mutable: bool,
    pub expression: Span,
}

/// A local declaration: `let`, a name, and the name it is bound to.
#[derive(Debug)]
pub struct Binding {
    name: Identifier,
    mutable: bool,
    expression: Identifier,
}

impl View for Binding {
    type V = BindingView;

    closed spec fn view(&self) -> BindingView {
        BindingView { name: self.name@, mutable: self.mutable, expression: self.expression@ }
    }
}

/// How a truth value is written.
pub open spec fn bool_text(value: bool) -> Seq<char> {
    if value {
        "true"@
    } else {
        "false"@
    }
}

/// The lines of a declaration at `level`: one that names the node and says
/// whether it is mutable, then its name and what it is bound to, one level
/// further in.
pub open spec fn binding_lines(binding: BindingView, source: Seq<char>, level: nat) -> Seq<char> {
    indentation(level) + "Binding (mut="@ + bool_text(binding.mutable) + ")\n"@ + identifier_line(
        binding.name,
        source,
        level + 1,
    ) + identifier_line(binding.expression, source, level + 1)
}

/// Whether both names of a declaration lie in a text of `len` characters.
pub open spec fn binding_inside(binding: BindingView, len: nat) -> bool {
    binding.name.spec_end() <= len && binding.expression.spec_end() <= len
}

impl Binding {
    pub fn new(name: Identifier, mutable: bool, expression: Identifier) -> (binding: Binding)
        ensures
            binding@ == (BindingView { name: name@, mutable, expression: expression@ }),
    {
        Binding { name, mutable, expression }
    }

    /// The name that is declared.
    pub fn name(&self) -> (name: &Identifier)
        ensures
            name@ == self@.name,
    {
        &self.name
    }

    /// Whether the name was declared with `mut`.
    pub fn is_mutable(&self) -> (mutable: bool)
        ensures
            mutable == self@.mutable,
    {
        self.mutable
    }

    /// What the name is bound to.
    pub fn expression(&self) -> (expression: &Identifier)
        ensures
            expression@ == self@.expression,
    {
        &self.expression
    }
}

impl Show for Binding {
    open spec fn shown(&self, source: Seq<char>, level: nat) -> Seq<char> {
        binding_lines(self@, source, level)
    }

    open spec fn inside(&self, len: nat) -> bool {
        binding_inside(self@, len)
    }

    open spec fn height(&self) -> nat {
        1
    }

    fn show(&self, source: &str, level: usize, buffer: &mut String) {
        let indent = Self::get_indent(level);
        pad(buffer, indent);
        buffer.append("Binding (mut=");
        if self.mutable {
            buffer.append("true");
        } else {
            buffer.append("false");
        }
        buffer.append(")\n");
        let ghost head = buffer@;
        self.name.show(source, level + 1, buffer);
        self.expression.show(source, level + 1, buffer);
        proof {
            assert(head =~= old(buffer)@ + (indentation(level as nat) + "Binding (mut="@ + bool_text(
                self.mutable,
            ) + ")\n"@));
            assert(buffer@ =~= old(buffer)@ + binding_lines(self@, source@, level as nat));
        }
    }
}

} // verus!
