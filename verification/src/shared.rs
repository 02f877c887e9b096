//! The language's closed type universe, its AST node set, and the error
//! taxonomy shared by every stage of the backend.

use vstd::prelude::*;
use vstd::string::StringExecFns;

verus! {

/// Why a compilation was aborted. Every error is fatal to the whole run:
/// there is no recovery and no partial output.
#[derive(Copy, Clone, Debug, PartialEq, Eq, Structural)]
pub enum CompileError {
    /// A name was declared twice in the same scope frame.
    DuplicateSymbol,
    /// A name was referenced but is not bound in any visible frame.
    UnknownSymbol,
    /// A type name outside the fixed vocabulary, or `void` where it is not allowed.
    InvalidTypeAnnotation,
    /// A binding with no storage was used as a value (a void-typed variable,
    /// or a function name in value position).
    VoidValue,
    /// A binary operator outside `+ - * /` reached code generation.
    UnsupportedOperator,
    /// An AST node appeared in a position its shape does not support.
    MalformedNode,
}

/// The concrete types a value can have.
#[derive(Copy, Clone, Debug, PartialEq, Eq, Structural)]
pub enum KindName {
    Number,
    Boolean,
    Void,
}

/// The resolved or pending type of a value or binding.
#[derive(Copy, Clone, Debug, PartialEq, Eq, Structural)]
pub enum Kind {
    /// A resolved, concrete type.
    Exact(KindName),
    /// Not yet resolved; inference must turn this into `Exact` before any
    /// code-generation decision depends on it.
    Infer,
    /// No value at all: a void function result, or an unresolved but
    /// harmless position.
    NoValue,
}

/// Relies on `str`'s `PartialEq` impl: equality of string slices is
/// equality of their character sequences.
#[verifier::external_body]
pub fn str_eq(a: &str, b: &str) -> (r: bool)
    ensures
        r == (a@ == b@),
{
    a == b
}

/// The language's reserved words.
pub open spec fn keyword_views() -> Seq<Seq<char>> {
    seq![
        "fn"@, "var"@, "return"@, "true"@, "false"@, "if"@, "else"@, "loop"@,
        "break"@, "continue"@,
    ]
}

/// Index of the first element of `arr` equal to `value`, or -1 if none is.
fn array_index_of_str(arr: &[&str], value: &str) -> (r: isize)
    requires
        arr@.len() <= isize::MAX,
    ensures
        r < 0 ==> r == -1 && forall|i: int| 0 <= i < arr@.len() ==> arr@[i]@ != value@,
        r >= 0 ==> 0 <= r < arr@.len() && arr@[r as int]@ == value@ && forall|i: int|
            0 <= i < r ==> arr@[i]@ != value@,
{
    let mut i: usize = 0;
    while i < arr.len()
        invariant
            arr@.len() <= isize::MAX,
            0 <= i <= arr@.len(),
            forall|j: int| 0 <= j < i ==> arr@[j]@ != value@,
        decreases arr@.len() - i,
    {
        if str_eq(arr[i], value) {
            return i as isize;
        }
        i = i + 1;
    }
    -1
}

/// Whether `s` is one of the language's reserved words.
pub fn is_keyword_str(s: &str) -> (r: bool)
    ensures
        r == keyword_views().contains(s@),
{
    let keywords: [&str; 10] = [
        "fn", "var", "return", "true", "false", "if", "else", "loop", "break",
        "continue",
    ];
    let ks: &[&str] = keywords.as_slice();
    let idx = array_index_of_str(ks, s);
    proof {
        assert(ks@ == keywords@);
        assert(keywords@.len() == 10);
        assert(keywords@[0]@ == "fn"@);
        assert(forall|i: int|
            0 <= i < 10 ==> keywords@[i]@ == keyword_views()[i]);
        if idx >= 0 {
            assert(keyword_views().contains(s@)) by {
                assert(keyword_views()[idx as int] == s@);
            }
        } else {
            assert forall|i: int| 0 <= i < keyword_views().len() implies keyword_views()[i]
                != s@ by {
                assert(keyword_views()[i] == keywords@[i]@);
                assert(keywords@[i]@ != s@);
            }
            assert(!keyword_views().contains(s@));
        }
    }
    idx >= 0
}

/// What `KindName::from` returns for a given type name.
pub open spec fn kind_name_from_spec(s: Seq<char>, allow_void: bool) -> Result<
    KindName,
    CompileError,
> {
    if s == "num"@ {
        Ok(KindName::Number)
    } else if s == "bool"@ {
        Ok(KindName::Boolean)
    } else if s == "void"@ {
        if allow_void {
            Ok(KindName::Void)
        } else {
            Err(CompileError::InvalidTypeAnnotation)
        }
    } else {
        Err(CompileError::InvalidTypeAnnotation)
    }
}

/// The textual name of a concrete type.
pub open spec fn kind_name_view(k: KindName) -> Seq<char> {
    match k {
        KindName::Number => "num"@,
        KindName::Boolean => "bool"@,
        KindName::Void => "void"@,
    }
}

impl KindName {
    /// Parses a type name from the fixed vocabulary `num`, `bool`, `void`;
    /// `void` is accepted only where the caller allows it.
    pub fn from(kind_str: &str, allow_void: bool) -> (r: Result<KindName, CompileError>)
        ensures
            r == kind_name_from_spec(kind_str@, allow_void),
    {
        if str_eq(kind_str, "num") {
            Ok(KindName::Number)
        } else if str_eq(kind_str, "bool") {
            Ok(KindName::Boolean)
        } else if str_eq(kind_str, "void") {
            if allow_void {
                Ok(KindName::Void)
            } else {
                Err(CompileError::InvalidTypeAnnotation)
            }
        } else {
            Err(CompileError::InvalidTypeAnnotation)
        }
    }

    /// The type's name as text.
    pub fn to_string(&self) -> (r: String)
        ensures
            r@ == kind_name_view(*self),
    {
        match self {
            KindName::Number => String::from_str("num"),
            KindName::Boolean => String::from_str("bool"),
            KindName::Void => String::from_str("void"),
        }
    }
}

impl From<KindName> for Kind {
    /// A concrete type name, seen as a resolved kind.
    fn from(k: KindName) -> (r: Kind) {
        Kind::Exact(k)
    }
}

impl vstd::std_specs::convert::FromSpecImpl<KindName> for Kind {
    open spec fn obeys_from_spec() -> bool {
        true
    }

    open spec fn from_spec(k: KindName) -> Kind {
        Kind::Exact(k)
    }
}

/// The textual name of a kind; non-exact kinds have none.
pub open spec fn kind_view(k: Kind) -> Seq<char> {
    match k {
        Kind::Exact(v) => kind_name_view(v),
        _ => Seq::<char>::empty(),
    }
}

/// What `Kind::create` returns for a given type name.
pub open spec fn kind_create_spec(s: Seq<char>) -> Result<Kind, CompileError> {
    match kind_name_from_spec(s, true) {
        Ok(k) => Ok(Kind::Exact(k)),
        Err(e) => Err(e),
    }
}

impl Kind {
    /// Parses a kind from a type name; `void` is allowed here.
    pub fn create(kind_str: &str) -> (r: Result<Kind, CompileError>)
        ensures
            r == kind_create_spec(kind_str@),
    {
        match KindName::from(kind_str, true) {
            Ok(k) => Ok(Kind::Exact(k)),
            Err(e) => Err(e),
        }
    }

    /// Whether the kind is resolved to a concrete type.
    pub fn is_exact(&self) -> (r: bool)
        ensures
            r == (*self is Exact),
    {
        match self {
            Kind::Exact(_) => true,
            _ => false,
        }
    }

    /// The concrete type, if the kind is resolved.
    pub fn read_kind_name(&self) -> (r: Option<KindName>)
        ensures
            *self matches Kind::Exact(v) ==> r == Some(v),
            !(*self is Exact) ==> r is None,
    {
        if let Kind::Exact(v) = self {
            Some(*v)
        } else {
            None
        }
    }

    /// The kind's name as text; non-exact kinds give the empty string.
    pub fn to_string(&self) -> (r: String)
        ensures
            r@ == kind_view(*self),
    {
        if let Kind::Exact(v) = self {
            v.to_string()
        } else {
            String::new()
        }
    }
}

/// The token vocabulary the parser and the backend agree on.
#[derive(Copy, Clone, Debug, PartialEq, Eq, Structural)]
pub enum TokenType {
    Keyword,
    Identifier,
    Number,
    Boolean,
    EOF,
    Assign,
    Plus,
    Sub,
    Mul,
    Div,
    ParenL,
    ParenR,
    BraceL,
    BraceR,
    Comma,
    Semi,
    Colon,
    ReturnSym,
}

/// A node of the abstract syntax tree. The tree is owned top-down and never
/// mutated after construction; name references are resolved by scope lookup,
/// never by pointer.
///
/// A numeric literal carries its value as an IEEE 754 double bit pattern:
/// the backend only moves the constant into the emitted code, it never
/// computes with it.
#[derive(Debug)]
pub enum Node {
    Program { body: Vec<Node> },
    FunctionDeclaration { id: Box<Node>, arguments: Vec<Node>, body: Box<Node>, return_kind: Kind },
    VariableDeclaration { id: Box<Node>, init: Box<Node> },
    BlockStatement { body: Vec<Node> },
    ReturnStatement { argument: Box<Node> },
    ExpressionStatement { expression: Box<Node> },
    IfStatement { condition: Box<Node>, consequent: Box<Node>, alternate: Option<Box<Node>> },
    LoopStatement { condition: Box<Node>, body: Box<Node> },
    BreakStatement { label: Option<Box<Node>> },
    ContinueStatement { label: Option<Box<Node>> },
    CallExpression { callee: Box<Node>, arguments: Vec<Node> },
    BinaryExpression { left: Box<Node>, right: Box<Node>, operator: String },
    AssignmentExpression { left: Box<Node>, right: Box<Node>, operator: String },
    Identifier { name: String, kind: Kind },
    NumberLiteral { value: u64 },
    BooleanLiteral { value: bool },
}

impl Node {
    /// The bit pattern held by a numeric literal node.
    pub fn read_number(&self) -> (r: u64)
        requires
            *self is NumberLiteral,
        ensures
            *self matches Node::NumberLiteral { value } ==> r == value,
    {
        match self {
            Node::NumberLiteral { value } => *value,
            _ => unreached(),
        }
    }

    /// The value held by a boolean literal node.
    pub fn read_bool(&self) -> (r: bool)
        requires
            *self is BooleanLiteral,
        ensures
            *self matches Node::BooleanLiteral { value } ==> r == value,
    {
        match self {
            Node::BooleanLiteral { value } => *value,
            _ => unreached(),
        }
    }

    /// The name and declared kind of an identifier node.
    pub fn read_identifier(&self) -> (r: (&str, Kind))
        requires
            *self is Identifier,
        ensures
            *self matches Node::Identifier { name, kind } ==> r.0@ == name@ && r.1 == kind,
    {
        match self {
            Node::Identifier { name, kind } => (name.as_str(), *kind),
            _ => unreached(),
        }
    }

    /// The statements of a block node.
    pub fn read_block_body(&self) -> (r: &Vec<Node>)
        requires
            *self is BlockStatement,
        ensures
            *self matches Node::BlockStatement { body } ==> r@ == body@,
    {
        match self {
            Node::BlockStatement { body } => body,
            _ => unreached(),
        }
    }
}

} // verus!
