//! The input of the graph construction: a function as a stream of items.
//!
//! Only what the construction reads is held here. A label, the three kinds of
//! control transfer, and the fact that any other instruction occupies a place
//! in the stream: a basic block refers to such an instruction by that place.
use vstd::prelude::*;

verus! {

/// A column and a row of a source file.
#[derive(Clone, Copy, Debug, PartialEq, Eq, Hash)]
pub struct ColRow {
    pub col: u64,
    pub row: u64,
}

/// Where an item was written: a start, optionally an end, optionally the file.
#[derive(Debug, PartialEq, Eq, Hash)]
pub struct Position {
    pub pos: ColRow,
    pub pos_end: Option<ColRow>,
    pub src: Option<String>,
}

/// The mathematical value of a [`Position`].
pub struct PositionView {
    pub pos: ColRow,
    pub pos_end: Option<ColRow>,
    pub src: Option<Seq<char>>,
}

impl DeepView for Position {
    type V = PositionView;

    open spec fn deep_view(&self) -> PositionView {
        PositionView {
            pos: self.pos,
            pos_end: self.pos_end,
            src: match self.src {
                Some(s) => Some(s@),
                None => None,
            },
        }
    }
}

impl View for Position {
    type V = PositionView;

    open spec fn view(&self) -> PositionView {
        self.deep_view()
    }
}

impl Clone for Position {
    fn clone(&self) -> (r: Self)
        ensures
            r@ == self@,
    {
        let src = match &self.src {
            Some(s) => Some(s.clone()),
            None => None,
        };
        Position { pos: self.pos, pos_end: self.pos_end, src }
    }
}

/// Copies an optional position.
pub fn clone_pos(pos: &Option<Position>) -> (r: Option<Position>)
    ensures
        r.deep_view() == pos.deep_view(),
{
    match pos {
        Some(p) => Some(p.clone()),
        None => None,
    }
}

/// The type of a value.
#[derive(Debug, PartialEq, Eq, Hash)]
pub enum Type {
    Int,
    Bool,
    Float,
    Char,
    Pointer(Box<Type>),
}

impl Clone for Type {
    fn clone(&self) -> (r: Self)
        ensures
            r == *self,
        decreases *self,
    {
        match self {
            Type::Int => Type::Int,
            Type::Bool => Type::Bool,
            Type::Float => Type::Float,
            Type::Char => Type::Char,
            Type::Pointer(inner) => {
                let t: &Type = inner;
                Type::Pointer(Box::new(t.clone()))
            },
        }
    }
}

/// A formal argument of a function: its name and its type.
#[derive(Debug, PartialEq, Eq, Hash)]
pub struct Argument {
    pub name: String,
    pub arg_type: Type,
}

/// The mathematical value of an [`Argument`].
pub struct ArgumentView {
    pub name: Seq<char>,
    pub arg_type: Type,
}

impl DeepView for Argument {
    type V = ArgumentView;

    open spec fn deep_view(&self) -> ArgumentView {
        ArgumentView { name: self.name@, arg_type: self.arg_type }
    }
}

impl View for Argument {
    type V = ArgumentView;

    open spec fn view(&self) -> ArgumentView {
        self.deep_view()
    }
}

impl Clone for Argument {
    fn clone(&self) -> (r: Self)
        ensures
            r@ == self@,
    {
        Argument { name: self.name.clone(), arg_type: self.arg_type.clone() }
    }
}

/// The three instructions that transfer control.
#[derive(Clone, Copy, Debug, PartialEq, Eq, Hash)]
pub enum ControlOp {
    /// A conditional branch: one argument, two labels.
    Branch,
    /// An unconditional jump: one label.
    Jump,
    /// A return: at most one argument.
    Return,
}

/// One item of a function's stream.
#[derive(Debug, PartialEq, Eq)]
pub enum Code {
    /// The declaration of a label.
    Label { label: String, pos: Option<Position> },
    /// A branch, a jump or a return, with the variables and labels it names.
    Control { op: ControlOp, args: Vec<String>, labels: Vec<String>, pos: Option<Position> },
    /// Any other instruction. A block refers to it by its place in the stream.
    Instruction,
}

/// The mathematical value of a [`Code`].
pub enum CodeView {
    Label { label: Seq<char>, pos: Option<PositionView> },
    Control {
        op: ControlOp,
        args: Seq<Seq<char>>,
        labels: Seq<Seq<char>>,
        pos: Option<PositionView>,
    },
    Instruction,
}

impl DeepView for Code {
    type V = CodeView;

    open spec fn deep_view(&self) -> CodeView {
        match self {
            Code::Label { label, pos } => CodeView::Label {
                label: label@,
                pos: pos.deep_view(),
            },
            Code::Control { op, args, labels, pos } => CodeView::Control {
                op: *op,
                args: args.deep_view(),
                labels: labels.deep_view(),
                pos: pos.deep_view(),
            },
            Code::Instruction => CodeView::Instruction,
        }
    }
}

impl View for Code {
    type V = CodeView;

    open spec fn view(&self) -> CodeView {
        self.deep_view()
    }
}

/// A function: its formal arguments and its items in order.
#[derive(Debug, PartialEq, Eq)]
pub struct Function {
    pub args: Vec<Argument>,
    pub instrs: Vec<Code>,
}

/// The mathematical value of a [`Function`].
pub struct FunctionView {
    pub args: Seq<ArgumentView>,
    pub instrs: Seq<CodeView>,
}

impl View for Function {
    type V = FunctionView;

    open spec fn view(&self) -> FunctionView {
        FunctionView { args: self.args.deep_view(), instrs: self.instrs.deep_view() }
    }
}

} // verus!
