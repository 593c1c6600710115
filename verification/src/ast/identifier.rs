use super::span::Span;
use super::{indentation, pad, Show};
use vstd::prelude::*;
use vstd::string::StringExecFns;

verus! {

/// A name: the span of the source that spells it.
#[derive(Debug)]
pub struct Identifier {
    name: Span,
}

impl View for Identifier {
    type V = Span;

    closed spec fn view(&self) -> Span {
        self.name
    }
}

/// The line of a name at `level`: the spaces, the word `Identifier` and the
/// characters of `source` that `name` covers.
pub open spec fn identifier_line(name: Span, source: Seq<char>, level: nat) -> Seq<char> {
    indentation(level) + "Identifier "@ + source.subrange(
        name.spec_start() as int,
        name.spec_end() as int,
    ) + "\n"@
}

impl Identifier {
    pub fn new(name: Span) -> (identifier: Identifier)
        ensures
            identifier@ == name,
    {
        Identifier { name }
    }

    /// The span of the source that spells the name.
    pub fn span(&self) -> (span: Span)
        ensures
            span == self@,
    {
        self.name
    }
}

impl Show for Identifier {
    open spec fn shown(&self, source: Seq<char>, level: nat) -> Seq<char> {
        identifier_line(self@, source, level)
    }

    open spec fn inside(&self, len: nat) -> bool {
        self@.spec_end() <= len
    }

    open spec fn height(&self) -> nat {
        0
    }

    fn show(&self, source: &str, level: usize, buffer: &mut String) {
        let indent = Self::get_indent(level);
        pad(buffer, indent);
        buffer.append("Identifier ");
        buffer.append(self.name.slice(source));
        buffer.append("\n");
        proof {
            assert(buffer@ =~= old(buffer)@ + identifier_line(self@, source@, level as nat));
        }
    }
}

} // verus!
