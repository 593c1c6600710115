use super::binding::BindingView;
use super::block::{block_inside, block_lines, Block};
use super::identifier::{identifier_line, Identifier};
use super::span::Span;
use super::{indentation, pad, views_of, Show, INDENT_WIDTH};
use vstd::prelude::*;
use vstd::string::StringExecFns;

verus! {

/// A parameter as the contracts see it.
pub struct ParameterView {
    pub name: Span,
    pub kind: Span,
}

/// A parameter of a function: its name and the name of its type.
#[derive(Debug)]
pub struct Parameter {
    name: Identifier,
    kind: Identifier,
}

impl View for Parameter {
    type V = ParameterView;

    closed spec fn view(&self) -> ParameterView {
        ParameterView { name: self.name@, kind: self.kind@ }
    }
}

/// The lines of a parameter at `level`: one that names the node, then its
/// name and its type, one level further in.
pub open spec fn parameter_lines(parameter: ParameterView, source: Seq<char>, level: nat) -> Seq<
    char,
> {
    indentation(level) + "Parameter\n"@ + identifier_line(parameter.name, source, level + 1)
        + identifier_line(parameter.kind, source, level + 1)
}

/// Whether both names of a parameter lie in a text of `len` characters.
pub open spec fn parameter_inside(parameter: ParameterView, len: nat) -> bool {
    parameter.name.spec_end() <= len && parameter.kind.spec_end() <= len
}

impl Parameter {
    pub fn new(name: Identifier, kind: Identifier) -> (parameter: Parameter)
        ensures
            parameter@ == (ParameterView { name: name@, kind: kind@ }),
    {
        Parameter { name, kind }
    }

    /// The parameter's name.
    pub fn name(&self) -> (name: &Identifier)
        ensures
            name@ == self@.name,
    {
        &self.name
    }

    /// The name of the parameter's type.
    pub fn kind(&self) -> (kind: &Identifier)
        ensures
            kind@ == self@.kind,
    {
        &self.kind
    }
}

impl Show for Parameter {
    open spec fn shown(&self, source: Seq<char>, level: nat) -> Seq<char> {
        parameter_lines(self@, source, level)
    }

    open spec fn inside(&self, len: nat) -> bool {
        parameter_inside(self@, len)
    }

    open spec fn height(&self) -> nat {
        1
    }

    fn show(&self, source: &str, level: usize, buffer: &mut String) {
        let indent = Self::get_indent(level);
        pad(buffer, indent);
        buffer.append("Parameter\n");
        self.name.show(source, level + 1, buffer);
        self.kind.show(source, level + 1, buffer);
        proof {
            assert(buffer@ =~= old(buffer)@ + parameter_lines(self@, source@, level as nat));
        }
    }
}

/// A function declaration as the contracts see it.
pub struct FunctionView {
    pub name: Span,
    pub parameters: Seq<ParameterView>,
    pub kind: Option<Span>,
    pub body: Seq<BindingView>,
}

/// A function declaration: its name, its parameters in the order in which
/// they were declared, the name of its result's type where it has one, and
/// its body.
#[derive(Debug)]
pub struct Function {
    name: Identifier,
    parameters: Vec<Parameter>,
    kind: Option<Identifier>,
    body: Block,
}

/// The view of a name that may be missing.
pub open spec fn optional_name(name: Option<Identifier>) -> Option<Span> {
    match name {
        Some(name) => Some(name@),
        None => None,
    }
}

impl View for Function {
    type V = FunctionView;

    closed spec fn view(&self) -> FunctionView {
        FunctionView {
            name: self.name@,
            parameters: views_of(self.parameters@),
            kind: optional_name(self.kind),
            body: self.body@,
        }
    }
}

/// The lines of parameters at `level`, one parameter after the other.
pub open spec fn parameters_lines(parameters: Seq<ParameterView>, source: Seq<char>, level: nat) -> Seq<
    char,
>
    decreases parameters.len(),
{
    if parameters.len() == 0 {
        Seq::empty()
    } else {
        parameters_lines(parameters.drop_last(), source, level) + parameter_lines(
            parameters.last(),
            source,
            level,
        )
    }
}

/// The line of the result's type at `level`, where there is one.
pub open spec fn kind_lines(kind: Option<Span>, source: Seq<char>, level: nat) -> Seq<char> {
    match kind {
        Some(kind) => identifier_line(kind, source, level),
        None => Seq::empty(),
    }
}

/// The lines of a function at `level`: one that names the node, then, one
/// level further in, its name, its parameters, the type of its result where
/// it has one, and its body.
pub open spec fn function_lines(function: FunctionView, source: Seq<char>, level: nat) -> Seq<char> {
    indentation(level) + "Function\n"@ + identifier_line(function.name, source, level + 1)
        + parameters_lines(function.parameters, source, level + 1) + kind_lines(
        function.kind,
        source,
        level + 1,
    ) + block_lines(function.body, source, level + 1)
}

/// Whether every name in a function lies in a text of `len` characters.
pub open spec fn function_inside(function: FunctionView, len: nat) -> bool {
    &&& function.name.spec_end() <= len
    &&& forall|i: int|
        0 <= i < function.parameters.len() ==> parameter_inside(
            #[trigger] function.parameters[i],
            len,
        )
    &&& function.kind matches Some(kind) ==> kind.spec_end() <= len
    &&& block_inside(function.body, len)
}

impl Function {
    pub fn new(
        name: Identifier,
        parameters: Vec<Parameter>,
        kind: Option<Identifier>,
        body: Block,
    ) -> (function: Function)
        ensures
            function@ == (FunctionView {
                name: name@,
                parameters: views_of(parameters@),
                kind: optional_name(kind),
                body: body@,
            }),
    {
        Function { name, parameters, kind, body }
    }

    /// The function's name.
    pub fn name(&self) -> (name: &Identifier)
        ensures
            name@ == self@.name,
    {
        &self.name
    }

    /// The parameters, in the order in which they were declared.
    pub fn parameters(&self) -> (parameters: &Vec<Parameter>)
        ensures
            views_of(parameters@) == self@.parameters,
    {
        &self.parameters
    }

    /// The name of the result's type, where the function has one.
    pub fn kind(&self) -> (kind: &Option<Identifier>)
        ensures
            optional_name(*kind) == self@.kind,
    {
        &self.kind
    }

    /// The function's body.
    pub fn body(&self) -> (body: &Block)
        ensures
            body@ == self@.body,
    {
        &self.body
    }
}

impl Show for Function {
    open spec fn shown(&self, source: Seq<char>, level: nat) -> Seq<char> {
        function_lines(self@, source, level)
    }

    open spec fn inside(&self, len: nat) -> bool {
        function_inside(self@, len)
    }

    open spec fn height(&self) -> nat {
        3
    }

    fn show(&self, source: &str, level: usize, buffer: &mut String) {
        let indent = Self::get_indent(level);
        pad(buffer, indent);
        buffer.append("Function\n");
        self.name.show(source, level + 1, buffer);
        let ghost head = buffer@;
        let ghost parameters = self@.parameters;
        let mut done: usize = 0;
        while done < self.parameters.len()
            invariant
                done <= self.parameters.len(),
                parameters == self@.parameters,
                self.inside(source@.len()),
                INDENT_WIDTH * (level + self.height()) <= usize::MAX,
                buffer@ == head + parameters_lines(
                    parameters.take(done as int),
                    source@,
                    level as nat + 1,
                ),
            decreases self.parameters.len() - done,
        {
            proof {
                assert(parameters[done as int] == self.parameters@[done as int]@);
                assert(parameters.take(done + 1).drop_last() =~= parameters.take(done as int));
                assert(parameters.take(done + 1).last() == parameters[done as int]);
            }
            self.parameters[done].show(source, level + 1, buffer);
            done = done + 1;
        }
        proof {
            assert(parameters.take(done as int) =~= parameters);
        }
        let ghost listed = buffer@;
        match &self.kind {
            Some(kind) => {
                kind.show(source, level + 1, buffer);
            },
            None => {
                assert(buffer@ =~= listed + kind_lines(self@.kind, source@, level as nat + 1));
            },
        }
        self.body.show(source, level + 1, buffer);
        proof {
            assert(buffer@ =~= old(buffer)@ + function_lines(self@, source@, level as nat));
        }
    }
}

} // verus!
