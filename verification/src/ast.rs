//! Expressions: parsed parts, the working parts that dispatch splices, and the shapes that a run
//! of parts is routed by.

use crate::symbol::Symbol;
use crate::value::{Carried, ExprId};
use vstd::prelude::*;

verus! {

/// A literal token. Numbers are held by their bit pattern.
#[derive(Clone, Copy, PartialEq, Eq, Structural, Debug)]
pub enum KLiteral {
    Number(u64),
    Str(Symbol),
    Bool(bool),
    Null,
}

/// The contents of a `[…]` literal, in the region's list table.
#[derive(Clone, Copy, PartialEq, Eq, Structural, Debug)]
pub struct ListId {
    pub at: usize,
}

/// The contents of a `{k: v}` literal, in the region's dict table.
#[derive(Clone, Copy, PartialEq, Eq, Structural, Debug)]
pub struct DictId {
    pub at: usize,
}

/// The contents of a `{name = value}` literal, in the region's record table.
#[derive(Clone, Copy, PartialEq, Eq, Structural, Debug)]
pub struct RecordId {
    pub at: usize,
}

/// One parsed part of an expression.
#[derive(Clone, Copy, PartialEq, Eq, Structural, Debug)]
pub enum ExpressionPart {
    Keyword(Symbol),
    /// A lowercase name, which reads the value channel.
    Identifier(Symbol),
    /// A capitalized name, which reads the type channel.
    Type(Symbol),
    /// `(…)`
    Expression(ExprId),
    /// `#(…)`
    QuotedExpression(ExprId),
    /// `:(…)`
    SigiledTypeExpr(ExprId),
    /// `:{…}`
    RecordType(ExprId),
    ListLiteral(ListId),
    DictLiteral(DictId),
    RecordLiteral(RecordId),
    Literal(KLiteral),
}

/// One slot of an expression under dispatch.
#[derive(Clone, Copy, PartialEq, Eq, Structural, Debug)]
pub enum WorkingPart {
    /// Parsed syntax that dispatch has not touched.
    Ast(ExpressionPart),
    /// A node that dispatch built itself.
    Expression(ExprId),
    /// A record-type body whose co-declared references are already threaded.
    RecordType(ExprId),
    /// A resolved value; `from_name` is the bare name it replaced.
    Spliced { cell: Carried, from_name: Option<Symbol> },
    /// A hole whose value is still being computed.
    StagedSlot,
}

/// An extent of source text.
#[derive(Clone, Copy, PartialEq, Eq, Structural, Debug)]
pub struct Span {
    pub start: usize,
    pub end: usize,
}

/// A slot with the source it came from.
#[derive(Clone, Copy, PartialEq, Eq, Structural, Debug)]
pub struct Spanned {
    pub value: WorkingPart,
    pub span: Option<Span>,
}

/// One element of the key that an expression is looked up by: keywords as themselves, every other
/// slot alike.
#[derive(Clone, Copy, PartialEq, Eq, Structural, Debug)]
pub enum KeyElement {
    Slot,
    Keyword(Symbol),
}

/// The shapes that dispatch routes by.
#[derive(Clone, Copy, PartialEq, Eq, Structural, Debug)]
pub enum DispatchShape {
    BareTypeLeaf,
    BareIdentifier,
    FunctionValueCall,
    TypeCall,
    HeadDeferred,
    TypeHeadDeferred,
    NonCallableHead,
    OperatorChain,
    Keyworded,
    SigiledTypeExpr,
    RecordType,
    LiteralPassThrough,
}

impl WorkingPart {
    /// The keyword in a slot.
    pub open spec fn keyword(self) -> Option<Symbol> {
        match self {
            WorkingPart::Ast(ExpressionPart::Keyword(symbol)) => Some(symbol),
            _ => None,
        }
    }

    /// The bare name in a slot, of either class.
    pub open spec fn bare_name(self) -> Option<Symbol> {
        match self {
            WorkingPart::Ast(ExpressionPart::Identifier(name)) => Some(name),
            WorkingPart::Ast(ExpressionPart::Type(name)) => Some(name),
            _ => None,
        }
    }

    /// The keyword in a slot.
    pub fn as_keyword(self) -> (r: Option<Symbol>)
        ensures
            r == self.keyword(),
    {
        match self {
            WorkingPart::Ast(ExpressionPart::Keyword(symbol)) => Some(symbol),
            _ => None,
        }
    }
}

/// A slot that no source token stands behind.
pub open spec fn bare_slot(value: WorkingPart) -> Spanned {
    Spanned { value, span: None }
}

/// A slot that no source token stands behind.
pub fn bare(value: WorkingPart) -> (r: Spanned)
    ensures
        r == bare_slot(value),
{
    Spanned { value, span: None }
}

/// The key that a run of parts is looked up by.
pub open spec fn key_of(parts: Seq<Spanned>) -> Seq<KeyElement> {
    parts.map_values(
        |part: Spanned|
            match part.value.keyword() {
                Some(symbol) => KeyElement::Keyword(symbol),
                None => KeyElement::Slot,
            },
    )
}

/// The keywords of a run of parts, in order.
pub open spec fn keywords_of(parts: Seq<Spanned>) -> Seq<Symbol>
    decreases parts.len(),
{
    if parts.len() == 0 {
        Seq::empty()
    } else {
        let earlier = keywords_of(parts.drop_last());
        match parts.last().value.keyword() {
            Some(symbol) => earlier.push(symbol),
            None => earlier,
        }
    }
}

/// Whether operands and keywords alternate, with at least two keywords.
pub open spec fn is_chain(parts: Seq<Spanned>) -> bool {
    &&& parts.len() >= 5
    &&& parts.len() % 2 == 1
    &&& forall|i: int|
        0 <= i < parts.len() ==> (#[trigger] parts[i].value.keyword() is Some <==> i % 2 == 1)
}

/// Whether any part is a keyword.
pub open spec fn has_keyword(parts: Seq<Spanned>) -> bool {
    exists|i: int| 0 <= i < parts.len() && #[trigger] parts[i].value.keyword() is Some
}

/// The shape of a run with exactly one part.
pub open spec fn lone_shape(part: WorkingPart) -> DispatchShape {
    match part {
        WorkingPart::Ast(ExpressionPart::Keyword(_)) => DispatchShape::Keyworded,
        WorkingPart::Ast(ExpressionPart::Type(_)) => DispatchShape::BareTypeLeaf,
        WorkingPart::Ast(ExpressionPart::Identifier(_)) => DispatchShape::BareIdentifier,
        WorkingPart::StagedSlot => DispatchShape::BareIdentifier,
        WorkingPart::Ast(ExpressionPart::SigiledTypeExpr(_)) => DispatchShape::SigiledTypeExpr,
        WorkingPart::Ast(ExpressionPart::RecordType(_)) => DispatchShape::RecordType,
        WorkingPart::RecordType(_) => DispatchShape::RecordType,
        _ => DispatchShape::LiteralPassThrough,
    }
}

/// The shape of a run without keywords, by its head.
pub open spec fn head_shape(head: WorkingPart) -> DispatchShape {
    match head {
        WorkingPart::Ast(ExpressionPart::Identifier(_)) => DispatchShape::FunctionValueCall,
        WorkingPart::Spliced { .. } => DispatchShape::FunctionValueCall,
        WorkingPart::StagedSlot => DispatchShape::FunctionValueCall,
        WorkingPart::Ast(ExpressionPart::Type(_)) => DispatchShape::TypeCall,
        WorkingPart::Ast(ExpressionPart::Expression(_)) => DispatchShape::HeadDeferred,
        WorkingPart::Expression(_) => DispatchShape::HeadDeferred,
        WorkingPart::Ast(ExpressionPart::SigiledTypeExpr(_)) => DispatchShape::TypeHeadDeferred,
        _ => DispatchShape::NonCallableHead,
    }
}

/// The shape of a run of parts.
pub open spec fn shape_of(parts: Seq<Spanned>) -> DispatchShape {
    if parts.len() == 0 {
        DispatchShape::NonCallableHead
    } else if parts.len() == 1 {
        lone_shape(parts[0].value)
    } else if is_chain(parts) {
        DispatchShape::OperatorChain
    } else if has_keyword(parts) {
        DispatchShape::Keyworded
    } else {
        head_shape(parts[0].value)
    }
}

/// The key that a run of parts is looked up by.
pub fn dispatch_key(parts: &Vec<Spanned>) -> (r: Vec<KeyElement>)
    ensures
        r@ == key_of(parts@),
{
    let mut r: Vec<KeyElement> = Vec::new();
    let mut i: usize = 0;
    while i < parts.len()
        invariant
            i <= parts.len(),
            r@ == key_of(parts@).take(i as int),
        decreases parts.len() - i,
    {
        let element = match parts[i].value.as_keyword() {
            Some(symbol) => KeyElement::Keyword(symbol),
            None => KeyElement::Slot,
        };
        r.push(element);
        assert(key_of(parts@).take(i as int + 1) =~= key_of(parts@).take(i as int).push(element));
        i = i + 1;
    }
    assert(key_of(parts@).take(i as int) =~= key_of(parts@));
    r
}

/// The keywords of a run of parts, in order.
pub fn chain_operator_symbols(parts: &Vec<Spanned>) -> (r: Vec<Symbol>)
    ensures
        r@ == keywords_of(parts@),
{
    let mut r: Vec<Symbol> = Vec::new();
    let mut i: usize = 0;
    proof {
        assert(parts@.take(0) =~= Seq::<Spanned>::empty());
    }
    while i < parts.len()
        invariant
            i <= parts.len(),
            r@ == keywords_of(parts@.take(i as int)),
        decreases parts.len() - i,
    {
        proof {
            assert(parts@.take(i as int + 1).drop_last() =~= parts@.take(i as int));
        }
        if let Some(symbol) = parts[i].value.as_keyword() {
            r.push(symbol);
        }
        i = i + 1;
    }
    assert(parts@.take(i as int) =~= parts@);
    r
}

/// Whether operands and keywords alternate, with at least two keywords.
fn alternates(parts: &Vec<Spanned>) -> (r: bool)
    ensures
        r == is_chain(parts@),
{
    if parts.len() < 5 || parts.len() % 2 != 1 {
        return false;
    }
    let mut i: usize = 0;
    while i < parts.len()
        invariant
            i <= parts.len(),
            forall|k: int|
                0 <= k < i ==> (#[trigger] parts@[k].value.keyword() is Some <==> k % 2 == 1),
        decreases parts.len() - i,
    {
        let is_keyword = parts[i].value.as_keyword().is_some();
        if is_keyword != (i % 2 == 1) {
            assert(parts@[i as int].value.keyword() is Some <==> is_keyword);
            return false;
        }
        i = i + 1;
    }
    true
}

/// Whether any part is a keyword.
fn any_keyword(parts: &Vec<Spanned>) -> (r: bool)
    ensures
        r == has_keyword(parts@),
{
    let mut i: usize = 0;
    while i < parts.len()
        invariant
            i <= parts.len(),
            forall|k: int| 0 <= k < i ==> #[trigger] parts@[k].value.keyword() is None,
        decreases parts.len() - i,
    {
        if parts[i].value.as_keyword().is_some() {
            assert(parts@[i as int].value.keyword() is Some);
            return true;
        }
        i = i + 1;
    }
    false
}

/// The shape of a run of parts.
pub fn classify_dispatch_shape(parts: &Vec<Spanned>) -> (r: DispatchShape)
    ensures
        r == shape_of(parts@),
{
    if parts.len() == 0 {
        DispatchShape::NonCallableHead
    } else if parts.len() == 1 {
        match parts[0].value {
            WorkingPart::Ast(ExpressionPart::Keyword(_)) => DispatchShape::Keyworded,
            WorkingPart::Ast(ExpressionPart::Type(_)) => DispatchShape::BareTypeLeaf,
            WorkingPart::Ast(ExpressionPart::Identifier(_)) => DispatchShape::BareIdentifier,
            WorkingPart::StagedSlot => DispatchShape::BareIdentifier,
            WorkingPart::Ast(ExpressionPart::SigiledTypeExpr(_)) => DispatchShape::SigiledTypeExpr,
            WorkingPart::Ast(ExpressionPart::RecordType(_)) => DispatchShape::RecordType,
            WorkingPart::RecordType(_) => DispatchShape::RecordType,
            _ => DispatchShape::LiteralPassThrough,
        }
    } else if alternates(parts) {
        DispatchShape::OperatorChain
    } else if any_keyword(parts) {
        DispatchShape::Keyworded
    } else {
        match parts[0].value {
            WorkingPart::Ast(ExpressionPart::Identifier(_)) => DispatchShape::FunctionValueCall,
            WorkingPart::Spliced { .. } => DispatchShape::FunctionValueCall,
            WorkingPart::StagedSlot => DispatchShape::FunctionValueCall,
            WorkingPart::Ast(ExpressionPart::Type(_)) => DispatchShape::TypeCall,
            WorkingPart::Ast(ExpressionPart::Expression(_)) => DispatchShape::HeadDeferred,
            WorkingPart::Expression(_) => DispatchShape::HeadDeferred,
            WorkingPart::Ast(ExpressionPart::SigiledTypeExpr(_)) => DispatchShape::TypeHeadDeferred,
            _ => DispatchShape::NonCallableHead,
        }
    }
}

} // verus!
