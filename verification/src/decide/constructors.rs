//! Construction of values of nominal types. Every value that goes into one is dispatched on its
//! own; once all of them have landed they are checked against the type and the value is built.

use crate::ast::{bare, bare_slot, ExpressionPart, Spanned, WorkingPart};
use crate::error::{
    raised, ErrorKindView, ErrorView, KError, KErrorKind, Message, MessageView, Subject,
};
use crate::ktype::{
    field_names, field_types, Field, KType, NodeSchema, TypeNode, TypeRegistry,
};
use crate::matching::{cell_named, field_named, record_field, schema_field};
use crate::outcome::{
    await_requests, awaiting, fail, failed, own_dispatch, request_deps, CtorKind, CtorView,
    DepPlacement, DepRequest, Finish, FinishView, Outcome, OutcomeView,
};
use crate::region::{copy_slots, no_meta, FieldPart, NodeMeta, Region, RegionView};
use crate::run::{run_items, storable, CellRun};
use crate::symbol::{Labels, Symbol};
use crate::text::{enclosed, join, joined, owned};
use crate::type_query::names_of_fields;
use crate::value::{Carried, Cell, ExprId, KObject, ObjId, ObjectView};
use vstd::pervasive::unreached;
use vstd::prelude::*;
use vstd::string::StringExecFns;

verus! {

/// One value of a construction.
#[derive(Clone, Copy, PartialEq, Eq, Structural, Debug)]
pub enum ValueCell {
    /// A part as it stands in the construction body.
    Part(WorkingPart),
    /// A value of several parts, grouped into a node.
    Synthesized(ExprId),
}

/// The text in front of a part that stands where a variant tag is asked for.
pub const TAG_EXPECTED: &'static str =
    "tagged-union construction = first arg must be a capitalized variant tag, got ";

/// The tag and the value of a tagged construction.
pub open spec fn prepared_args(args: Seq<Spanned>) -> Result<(Symbol, WorkingPart), ErrorView> {
    if args.len() != 2 {
        Err(raised(ErrorKindView::ArityMismatch { expected: 2, got: args.len() as usize }))
    } else {
        match args[0].value {
            WorkingPart::Ast(ExpressionPart::Type(tag)) => Ok((tag, args[1].value)),
            other => Err(
                raised(
                    ErrorKindView::ShapeError(
                        MessageView::Showing {
                            before: TAG_EXPECTED@,
                            shown: Subject::Part(other),
                            after: ""@,
                        },
                    ),
                ),
            ),
        }
    }
}

/// Splits the arguments of a tagged construction: exactly two parts, the first a variant tag.
pub fn prepare_args(args: &Vec<Spanned>) -> (r: Result<(Symbol, WorkingPart), KError>)
    ensures
        match r {
            Ok(pair) => prepared_args(args@) == Ok::<(Symbol, WorkingPart), ErrorView>(pair),
            Err(e) => prepared_args(args@) == Err::<(Symbol, WorkingPart), ErrorView>(e@),
        },
{
    if args.len() != 2 {
        return Err(KError::new(KErrorKind::ArityMismatch { expected: 2, got: args.len() }));
    }
    match args[0].value {
        WorkingPart::Ast(ExpressionPart::Type(tag)) => Ok((tag, args[1].value)),
        other => Err(
            KError::new(
                KErrorKind::ShapeError(
                    Message::Showing {
                        before: owned(TAG_EXPECTED),
                        shown: Subject::Part(other),
                        after: owned(""),
                    },
                ),
            ),
        ),
    }
}

/// The parts inside a group that stands alone; any other run of parts is left as it is.
pub open spec fn ungrouped(region: RegionView, parts: Seq<Spanned>) -> Seq<Spanned> {
    if parts.len() == 1 {
        match parts[0].value {
            WorkingPart::Ast(ExpressionPart::Expression(inner)) => region.parts(inner),
            _ => parts,
        }
    } else {
        parts
    }
}

/// The single value that a construction body holds, and the region with the node that a value of
/// several parts is grouped in. An empty body holds none.
pub open spec fn value_cell(region: RegionView, parts: Seq<Spanned>) -> Result<
    (ValueCell, RegionView),
    ErrorView,
> {
    let inner = ungrouped(region, parts);
    if inner.len() == 0 {
        Err(raised(ErrorKindView::ArityMismatch { expected: 1, got: 0 }))
    } else if inner.len() == 1 {
        Ok((ValueCell::Part(inner[0].value), region))
    } else {
        Ok((ValueCell::Synthesized(region.next_node()), region.with_node(inner, no_meta())))
    }
}

/// The single value that a construction body holds.
pub fn single_value_cell(region: &mut Region, parts: &Vec<Spanned>) -> (r: Result<
    ValueCell,
    KError,
>)
    ensures
        match r {
            Ok(cell) => value_cell(old(region)@, parts@) == Ok::<
                (ValueCell, RegionView),
                ErrorView,
            >((cell, final(region)@)),
            Err(e) => value_cell(old(region)@, parts@) == Err::<(ValueCell, RegionView), ErrorView>(
                e@,
            ) && final(region)@ == old(region)@,
        },
{
    let mut inner = copy_slots(parts);
    if parts.len() == 1 {
        if let WorkingPart::Ast(ExpressionPart::Expression(group)) = parts[0].value {
            inner = region.parts_of(group);
        }
    }
    if inner.len() == 0 {
        return Err(KError::new(KErrorKind::ArityMismatch { expected: 1, got: 0 }));
    }
    if inner.len() == 1 {
        return Ok(ValueCell::Part(inner[0].value));
    }
    let expr = region.add_node(inner, NodeMeta { span: None, plan: None, raw: None });
    Ok(ValueCell::Synthesized(expr))
}

/// The work that evaluates one value, and the region with the node that a lone part needs.
pub open spec fn cell_request(region: RegionView, cell: ValueCell) -> (DepRequest, RegionView) {
    match cell {
        ValueCell::Part(part) => (
            own_dispatch(region.next_node()),
            region.with_node(seq![bare_slot(part)], no_meta()),
        ),
        ValueCell::Synthesized(expr) => (own_dispatch(expr), region),
    }
}

/// The work that evaluates a run of values, in order.
pub open spec fn cell_requests(region: RegionView, cells: Seq<ValueCell>) -> (
    Seq<DepRequest>,
    RegionView,
)
    decreases cells.len(),
{
    if cells.len() == 0 {
        (Seq::empty(), region)
    } else {
        let earlier = cell_requests(region, cells.drop_last());
        let own = cell_request(earlier.1, cells.last());
        (earlier.0.push(own.0), own.1)
    }
}

/// The slot waits for every value and then builds; an error of one is passed on without a frame.
pub open spec fn launched(region: RegionView, cells: Seq<ValueCell>, kind: CtorView) -> OutcomeView {
    awaiting(
        request_deps(cell_requests(region, cells).0),
        None,
        FinishView::Construct(kind),
    )
}

/// Waits for every value and then builds.
pub fn launch(region: &mut Region, cells: Vec<ValueCell>, kind: CtorKind) -> (r: Outcome)
    ensures
        r@ == launched(old(region)@, cells@, kind@),
        final(region)@ == cell_requests(old(region)@, cells@).1,
{
    let ghost before = region@;
    let mut requests: Vec<DepRequest> = Vec::new();
    let mut i: usize = 0;
    proof {
        assert(cells@.take(0) =~= Seq::<ValueCell>::empty());
    }
    while i < cells.len()
        invariant
            i <= cells.len(),
            (requests@, region@) == cell_requests(before, cells@.take(i as int)),
        decreases cells.len() - i,
    {
        proof {
            assert(cells@.take(i as int + 1).drop_last() =~= cells@.take(i as int));
        }
        let expr = match cells[i] {
            ValueCell::Part(part) => region.add_lone(
                bare(part),
                NodeMeta { span: None, plan: None, raw: None },
            ),
            ValueCell::Synthesized(expr) => expr,
        };
        requests.push(DepRequest::Dispatch { expr, placement: DepPlacement::OwnScope });
        i = i + 1;
    }
    assert(cells@.take(i as int) =~= cells@);
    await_requests(requests, None, Finish::Construct(kind))
}

/// A construction from the single value of `parts`.
pub open spec fn single_construction(
    region: RegionView,
    parts: Seq<Spanned>,
    kind: CtorView,
) -> (OutcomeView, RegionView) {
    match value_cell(region, parts) {
        Ok((cell, grown)) => (
            launched(grown, seq![cell], kind),
            cell_requests(grown, seq![cell]).1,
        ),
        Err(e) => (failed(e), region),
    }
}

/// Builds from the single value of `parts`.
fn construct_single(region: &mut Region, parts: &Vec<Spanned>, kind: CtorKind) -> (r: Outcome)
    ensures
        (r@, final(region)@) == single_construction(old(region)@, parts@, kind@),
{
    match single_value_cell(region, parts) {
        Ok(cell) => {
            let mut cells: Vec<ValueCell> = Vec::new();
            cells.push(cell);
            assert(cells@ =~= seq![cell]);
            launch(region, cells, kind)
        },
        Err(e) => fail(e),
    }
}

/// Builds a wrapper around the single value of `parts`.
pub fn dispatch_construct_newtype(region: &mut Region, identity: KType, parts: &Vec<Spanned>) -> (r:
    Outcome)
    ensures
        (r@, final(region)@) == single_construction(
            old(region)@,
            parts@,
            CtorView::NewType { identity },
        ),
{
    construct_single(region, parts, CtorKind::NewType { identity })
}

/// Builds an identity wrapper around the single value of `parts`.
pub fn dispatch_construct_apply(region: &mut Region, constructor: KType, parts: &Vec<Spanned>) -> (r:
    Outcome)
    ensures
        (r@, final(region)@) == single_construction(
            old(region)@,
            parts@,
            CtorView::ApplyConstructor { constructor },
        ),
{
    construct_single(region, parts, CtorKind::ApplyConstructor { constructor })
}

/// The names of a record literal, in order.
pub open spec fn literal_names(fields: Seq<FieldPart>) -> Seq<Symbol> {
    fields.map_values(|field: FieldPart| field.name)
}

/// The values of a record literal, in order.
pub open spec fn literal_cells(fields: Seq<FieldPart>) -> Seq<ValueCell> {
    fields.map_values(|field: FieldPart| ValueCell::Part(WorkingPart::Ast(field.value)))
}

/// The names of a record literal, in order.
pub fn names_of_literal(fields: &Vec<FieldPart>) -> (r: Vec<Symbol>)
    ensures
        r@ == literal_names(fields@),
{
    let mut r: Vec<Symbol> = Vec::new();
    let mut i: usize = 0;
    while i < fields.len()
        invariant
            i <= fields.len(),
            r@ == literal_names(fields@).take(i as int),
        decreases fields.len() - i,
    {
        r.push(fields[i].name);
        assert(literal_names(fields@).take(i as int + 1) =~= literal_names(fields@).take(
            i as int,
        ).push(fields@[i as int].name));
        i = i + 1;
    }
    assert(literal_names(fields@).take(i as int) =~= literal_names(fields@));
    r
}

/// The values of a record literal, in order.
pub fn cells_of_literal(fields: &Vec<FieldPart>) -> (r: Vec<ValueCell>)
    ensures
        r@ == literal_cells(fields@),
{
    let mut r: Vec<ValueCell> = Vec::new();
    let mut i: usize = 0;
    while i < fields.len()
        invariant
            i <= fields.len(),
            r@ == literal_cells(fields@).take(i as int),
        decreases fields.len() - i,
    {
        r.push(ValueCell::Part(WorkingPart::Ast(fields[i].value)));
        assert(literal_cells(fields@).take(i as int + 1) =~= literal_cells(fields@).take(
            i as int,
        ).push(ValueCell::Part(WorkingPart::Ast(fields@[i as int].value))));
        i = i + 1;
    }
    assert(literal_cells(fields@).take(i as int) =~= literal_cells(fields@));
    r
}

/// Builds a wrapper around a record, each field dispatched on its own.
pub fn dispatch_construct_record_newtype(
    region: &mut Region,
    identity: KType,
    fields: &Vec<FieldPart>,
) -> (r: Outcome)
    ensures
        r@ == launched(
            old(region)@,
            literal_cells(fields@),
            CtorView::RecordNewType { identity, field_names: literal_names(fields@) },
        ),
        final(region)@ == cell_requests(old(region)@, literal_cells(fields@)).1,
{
    let field_names = names_of_literal(fields);
    launch(region, cells_of_literal(fields), CtorKind::RecordNewType { identity, field_names })
}

/// A tagged construction from the arguments `args`.
pub open spec fn tagged_construction(
    region: RegionView,
    member: KType,
    schema: Seq<Field>,
    args: Seq<Spanned>,
) -> (OutcomeView, RegionView) {
    match prepared_args(args) {
        Ok((tag, value)) => (
            launched(
                region,
                seq![ValueCell::Part(value)],
                CtorView::Tagged { schema, member, tag },
            ),
            cell_requests(region, seq![ValueCell::Part(value)]).1,
        ),
        Err(e) => (failed(e), region),
    }
}

/// Builds one variant out of `schema` from a tag and a value.
pub fn dispatch_construct_tagged(
    region: &mut Region,
    member: KType,
    schema: Vec<Field>,
    args: &Vec<Spanned>,
) -> (r: Outcome)
    ensures
        (r@, final(region)@) == tagged_construction(old(region)@, member, schema@, args@),
{
    match prepare_args(args) {
        Ok((tag, value)) => construct_tagged(region, member, schema, tag, value),
        Err(e) => fail(e),
    }
}

/// Builds one variant out of `schema` from a tag and a value that are already apart.
pub fn construct_tagged(
    region: &mut Region,
    member: KType,
    schema: Vec<Field>,
    tag: Symbol,
    value: WorkingPart,
) -> (r: Outcome)
    ensures
        r@ == launched(
            old(region)@,
            seq![ValueCell::Part(value)],
            CtorView::Tagged { schema: schema@, member, tag },
        ),
        final(region)@ == cell_requests(old(region)@, seq![ValueCell::Part(value)]).1,
{
    let mut cells: Vec<ValueCell> = Vec::new();
    cells.push(ValueCell::Part(value));
    assert(cells@ =~= seq![ValueCell::Part(value)]);
    launch(region, cells, CtorKind::Tagged { schema, member, tag })
}

/// A value that does not inhabit the type it is built into.
pub open spec fn value_mismatch(expected: Seq<char>, got: Seq<char>) -> ErrorView {
    raised(ErrorKindView::TypeMismatch { arg: "value"@, expected, got })
}

/// A value that does not inhabit the type it is built into.
fn mismatched_value(expected: String, got: String) -> (r: KError)
    ensures
        r@ == value_mismatch(expected@, got@),
{
    KError::new(KErrorKind::TypeMismatch { arg: owned("value"), expected, got })
}

/// Whether a value may be wrapped under `identity`; when it may, whether one wrapper layer
/// collapses: it does exactly when the value already carries the representation as its identity.
pub open spec fn newtype_check(
    types: &TypeRegistry,
    labels: &Labels,
    region: RegionView,
    repr: KType,
    value: ObjId,
) -> Result<bool, ErrorView> {
    if types.inhabits(region, repr, value) {
        Ok(region.object(value) is Wrapped && repr == region.object(value).ktype())
    } else {
        Err(
            value_mismatch(
                types.name_text(labels, repr),
                types.name_text(labels, region.object(value).ktype()),
            ),
        )
    }
}

/// Whether an object is a wrapped value.
fn is_wrapped(region: &Region, value: ObjId) -> (r: bool)
    ensures
        r == (region@.object(value) is Wrapped),
{
    match region.object(value) {
        Some(object) => matches!(object, KObject::Wrapped { .. }),
        None => false,
    }
}

/// Checks a value against the representation of the wrapper type `identity`.
pub fn check_newtype_repr(
    types: &TypeRegistry,
    labels: &Labels,
    region: &Region,
    identity: KType,
    value: ObjId,
) -> (r: Result<bool, KError>)
    requires
        types.repr_of(identity) is Some,
    ensures
        match r {
            Ok(collapse) => newtype_check(
                types,
                labels,
                region@,
                types.repr_of(identity)->0,
                value,
            ) == Ok::<bool, ErrorView>(collapse),
            Err(e) => newtype_check(types, labels, region@, types.repr_of(identity)->0, value)
                == Err::<bool, ErrorView>(e@),
        },
{
    match types.repr(identity) {
        Some(repr) => {
            let own = region.object_type(value);
            if !types.matches_value(region, repr, value) {
                return Err(mismatched_value(types.name(labels, repr), types.name(labels, own)));
            }
            Ok(is_wrapped(region, value) && repr == own)
        },
        None => unreached(),
    }
}

/// The cells of a record: each name with the value at its place.
pub open spec fn paired(names: Seq<Symbol>, values: Seq<Carried>) -> Seq<Cell> {
    Seq::new(names.len(), |i: int| Cell { name: names[i], value: values[i] })
}

/// The object behind a carried value.
pub open spec fn object_of(carried: Carried) -> ObjId {
    carried->Object_0
}

/// The types of a run of cells under their names.
pub open spec fn cell_types(region: RegionView, cells: Seq<Cell>) -> Seq<Field> {
    cells.map_values(
        |cell: Cell|
            Field { name: cell.name, ktype: region.object(object_of(cell.value)).ktype() },
    )
}

/// Whether the cells fill every field that the record type `repr` declares.
pub open spec fn fills_record(
    types: &TypeRegistry,
    region: RegionView,
    repr: KType,
    cells: Seq<Cell>,
) -> bool {
    types.node_of(repr) matches Some(TypeNode::Record { fields }) && forall|i: int|
        0 <= i < fields@.len() ==> #[trigger] fills_field(types, region, fields@[i], cells)
}

/// Whether the cells fill one declared field.
pub open spec fn fills_field(
    types: &TypeRegistry,
    region: RegionView,
    field: Field,
    cells: Seq<Cell>,
) -> bool {
    match cell_named(cells, field.name) {
        Some(value) => types.accepts(region, field.ktype, value),
        None => false,
    }
}

/// Whether the cells fill every field of `fields`.
fn fills_all(types: &TypeRegistry, region: &Region, fields: &Vec<Field>, cells: &Vec<Cell>) -> (r:
    bool)
    ensures
        r == forall|i: int|
            0 <= i < fields@.len() ==> #[trigger] fills_field(types, region@, fields@[i], cells@),
{
    let mut i: usize = 0;
    while i < fields.len()
        invariant
            i <= fields.len(),
            forall|k: int|
                0 <= k < i ==> #[trigger] fills_field(types, region@, fields@[k], cells@),
        decreases fields.len() - i,
    {
        let filled = match record_field(cells, fields[i].name) {
            Some(value) => types.accepts_carried(region, fields[i].ktype, value),
            None => false,
        };
        assert(filled == fills_field(types, region@, fields@[i as int], cells@));
        if !filled {
            return false;
        }
        i = i + 1;
    }
    true
}

/// Checks a run of named values against the record representation of the wrapper type `identity`;
/// `own` is the type of the record that they make up.
pub fn check_record_newtype_repr(
    types: &TypeRegistry,
    labels: &Labels,
    region: &Region,
    identity: KType,
    cells: &Vec<Cell>,
    own: KType,
) -> (r: Result<(), KError>)
    requires
        types.repr_of(identity) is Some,
    ensures
        match r {
            Ok(_) => fills_record(types, region@, types.repr_of(identity)->0, cells@),
            Err(e) => !fills_record(types, region@, types.repr_of(identity)->0, cells@) && e@
                == value_mismatch(
                types.name_text(labels, types.repr_of(identity)->0),
                types.name_text(labels, own),
            ),
        },
{
    match types.repr(identity) {
        Some(repr) => {
            let filled = match types.node(repr) {
                Some(TypeNode::Record { fields }) => fills_all(types, region, fields, cells),
                _ => false,
            };
            if !filled {
                return Err(mismatched_value(types.name(labels, repr), types.name(labels, own)));
            }
            Ok(())
        },
        None => unreached(),
    }
}

/// The value behind one wrapper layer; any other value is itself.
pub open spec fn peeled(region: RegionView, value: ObjId) -> ObjId {
    match region.object(value) {
        ObjectView::Wrapped { inner, .. } => inner,
        _ => value,
    }
}

/// The value behind one wrapper layer.
fn peel(region: &Region, value: ObjId) -> (r: ObjId)
    ensures
        r == peeled(region@, value),
{
    match region.object(value) {
        Some(object) => match object {
            KObject::Wrapped { inner, .. } => *inner,
            _ => value,
        },
        None => value,
    }
}

/// Whether every one of the values is an object.
pub open spec fn all_objects(values: Seq<Carried>) -> bool {
    forall|i: int| 0 <= i < values.len() ==> #[trigger] values[i] is Object
}

/// Whether every one of the values is an object of a type that the registry holds.
pub open spec fn all_held(types: &TypeRegistry, region: RegionView, values: Seq<Carried>) -> bool {
    all_objects(values) && forall|i: int|
        0 <= i < values.len() ==> types.holds(
            region.object(object_of(#[trigger] values[i])).ktype(),
        )
}

/// Whether `values` are what a construction of the given kind waits for. A tag that none of the
/// variants has is refused whatever the value is.
pub open spec fn constructible(
    types: &TypeRegistry,
    region: RegionView,
    kind: CtorView,
    values: Seq<Carried>,
) -> bool {
    match kind {
        CtorView::NewType { identity } => values.len() == 1 && all_objects(values)
            && types.repr_of(identity) is Some,
        CtorView::RecordNewType { identity, field_names } => values.len() == field_names.len()
            && storable(values.len()) && all_held(types, region, values) && types.repr_of(identity)
            is Some,
        CtorView::Tagged { schema, tag, .. } => values.len() == 1 && (field_named(schema, tag)
            is Some ==> all_objects(values)),
        CtorView::ApplyConstructor { constructor } => values.len() == 1 && all_held(
            types,
            region,
            values,
        ) && identity_wrapper_param(types, constructor) is Some,
    }
}

/// The parameter that an identity wrapper binds: the first of its family.
pub open spec fn identity_wrapper_param(types: &TypeRegistry, constructor: KType) -> Option<Symbol> {
    match types.node_of(constructor) {
        Some(
            TypeNode::SetMember { schema: NodeSchema::TypeConstructor { param_names, .. }, .. },
        ) => if param_names@.len() > 0 {
            Some(param_names@[0])
        } else {
            None
        },
        _ => None,
    }
}

/// The parameter that an identity wrapper binds.
fn identity_param(types: &TypeRegistry, constructor: KType) -> (r: Option<Symbol>)
    ensures
        r == identity_wrapper_param(types, constructor),
{
    match types.node(constructor) {
        Some(
            TypeNode::SetMember { schema: NodeSchema::TypeConstructor { param_names, .. }, .. },
        ) => if param_names.len() > 0 {
            Some(param_names[0])
        } else {
            None
        },
        _ => None,
    }
}

/// What building a wrapper around one value comes to.
pub open spec fn newtype_built(
    types: &TypeRegistry,
    labels: &Labels,
    region: RegionView,
    identity: KType,
    value: ObjId,
) -> (Result<Carried, ErrorView>, RegionView) {
    match newtype_check(types, labels, region, types.repr_of(identity)->0, value) {
        Ok(collapse) => (
            Ok(Carried::Object(region.next_object())),
            region.with_object(
                ObjectView::Wrapped {
                    inner: if collapse {
                        peeled(region, value)
                    } else {
                        value
                    },
                    type_id: identity,
                },
                region.object_borrows(value),
            ),
        ),
        Err(e) => (Err(e), region),
    }
}

/// Whether any of the values borrows.
pub open spec fn any_borrows(region: RegionView, values: Seq<Carried>) -> bool {
    exists|i: int| 0 <= i < values.len() && region.borrows(#[trigger] values[i])
}

/// What building a wrapper around a record comes to; `own` is the type of that record.
pub open spec fn record_newtype_built(
    types: &TypeRegistry,
    labels: &Labels,
    region: RegionView,
    identity: KType,
    names: Seq<Symbol>,
    values: Seq<Carried>,
    own: KType,
) -> (Result<Carried, ErrorView>, RegionView) {
    let cells = paired(names, values);
    let repr = types.repr_of(identity)->0;
    if fills_record(types, region, repr, cells) {
        let borrows = any_borrows(region, values);
        let grown = region.with_object(ObjectView::Record { fields: cells, ktype: own }, borrows);
        (
            Ok(Carried::Object(grown.next_object())),
            grown.with_object(
                ObjectView::Wrapped { inner: region.next_object(), type_id: identity },
                borrows,
            ),
        )
    } else {
        (
            Err(value_mismatch(types.name_text(labels, repr), types.name_text(labels, own))),
            region,
        )
    }
}

/// A tag that none of the variants has.
pub open spec fn unknown_tag(labels: &Labels, schema: Seq<Field>, tag: Symbol) -> ErrorView {
    raised(
        ErrorKindView::shape_error(
            "tag `"@ + labels.text_of(tag) + "` not in union (known: "@ + joined(
                labels.texts_of(field_names(schema)),
                ", "@,
            ) + ")"@,
        ),
    )
}

/// What building a tagged value comes to.
pub open spec fn tagged_built(
    types: &TypeRegistry,
    labels: &Labels,
    region: RegionView,
    schema: Seq<Field>,
    member: KType,
    tag: Symbol,
    value: ObjId,
) -> (Result<Carried, ErrorView>, RegionView) {
    match field_named(schema, tag) {
        None => (Err(unknown_tag(labels, schema, tag)), region),
        Some(expected) => if types.inhabits(region, expected, value) {
            (
                Ok(Carried::Object(region.next_object())),
                region.with_object(
                    ObjectView::Tagged { tag, value, identity: member },
                    region.object_borrows(value),
                ),
            )
        } else {
            (
                Err(
                    value_mismatch(
                        types.name_text(labels, expected),
                        types.name_text(labels, region.object(value).ktype()),
                    ),
                ),
                region,
            )
        },
    }
}

/// Whether `applied` is `constructor` with its parameter bound to the type of `value`.
pub open spec fn wraps_type_of(
    types: &TypeRegistry,
    region: RegionView,
    constructor: KType,
    param: Symbol,
    value: ObjId,
    applied: KType,
) -> bool {
    types.node_of(applied) matches Some(
        TypeNode::ConstructorApply { constructor: head, arguments },
    ) && head == constructor && arguments@ == seq![
        Field { name: param, ktype: region.object(value).ktype() },
    ]
}

/// What building a value of a nominal type comes to, over the registry as it was and as it is
/// afterwards.
pub open spec fn constructed(
    before: &TypeRegistry,
    after: &TypeRegistry,
    labels: &Labels,
    region: RegionView,
    kind: CtorView,
    values: Seq<Carried>,
    result: (Result<Carried, ErrorView>, RegionView),
) -> bool {
    match kind {
        CtorView::NewType { identity } => after.nodes@ == before.nodes@ && result == newtype_built(
            before,
            labels,
            region,
            identity,
            object_of(values[0]),
        ),
        CtorView::RecordNewType { identity, field_names } => exists|own: KType|
            {
                &&& #[trigger] after.gained_record(
                    before,
                    cell_types(region, paired(field_names, values)),
                    own,
                )
                &&& result == record_newtype_built(
                    after,
                    labels,
                    region,
                    identity,
                    field_names,
                    values,
                    own,
                )
            },
        CtorView::Tagged { schema, member, tag } => after.nodes@ == before.nodes@ && result
            == tagged_built(before, labels, region, schema, member, tag, object_of(values[0])),
        CtorView::ApplyConstructor { constructor } => exists|applied: KType|
            {
                &&& #[trigger] wraps_type_of(
                    after,
                    region,
                    constructor,
                    identity_wrapper_param(before, constructor)->0,
                    object_of(values[0]),
                    applied,
                )
                &&& after.gained_application(
                    before,
                    constructor,
                    seq![
                        Field {
                            name: identity_wrapper_param(before, constructor)->0,
                            ktype: region.object(object_of(values[0])).ktype(),
                        },
                    ],
                    applied,
                )
                &&& result == (
                    Ok::<Carried, ErrorView>(Carried::Object(region.next_object())),
                    region.with_object(
                        ObjectView::Wrapped {
                            inner: peeled(region, object_of(values[0])),
                            type_id: applied,
                        },
                        region.object_borrows(object_of(values[0])),
                    ),
                )
            },
    }
}

/// The object behind a carried value.
fn carried_object(carried: Carried) -> (r: ObjId)
    requires
        carried is Object,
    ensures
        r == object_of(carried),
{
    match carried {
        Carried::Object(object) => object,
        _ => unreached(),
    }
}

/// Pairs the values of a run with their names.
pub fn pair_cells(names: &Vec<Symbol>, run: &CellRun) -> (r: Vec<Cell>)
    requires
        names@.len() == run_items(*run).len(),
    ensures
        r@ == paired(names@, run_items(*run)),
{
    let mut r: Vec<Cell> = Vec::new();
    let count: usize = run.count();
    let mut i: usize = 0;
    while i < count
        invariant
            i <= count,
            count == names@.len(),
            names@.len() == run_items(*run).len(),
            r@ == paired(names@, run_items(*run)).take(i as int),
        decreases count - i,
    {
        r.push(Cell { name: names[i], value: run.at(i) });
        assert(paired(names@, run_items(*run)).take(i as int + 1) =~= paired(
            names@,
            run_items(*run),
        ).take(i as int).push(paired(names@, run_items(*run))[i as int]));
        i = i + 1;
    }
    assert(paired(names@, run_items(*run)).take(i as int) =~= paired(names@, run_items(*run)));
    r
}

/// The types of a run of cells under their names.
fn types_of_cells(region: &Region, cells: &Vec<Cell>) -> (r: Vec<Field>)
    requires
        forall|i: int| 0 <= i < cells@.len() ==> (#[trigger] cells@[i]).value is Object,
    ensures
        r@ == cell_types(region@, cells@),
{
    let mut r: Vec<Field> = Vec::new();
    let mut i: usize = 0;
    while i < cells.len()
        invariant
            i <= cells.len(),
            forall|k: int| 0 <= k < cells@.len() ==> (#[trigger] cells@[k]).value is Object,
            r@ == cell_types(region@, cells@).take(i as int),
        decreases cells.len() - i,
    {
        let cell = cells[i];
        assert(cells@[i as int].value is Object);
        r.push(Field { name: cell.name, ktype: region.object_type(carried_object(cell.value)) });
        assert(cell_types(region@, cells@).take(i as int + 1) =~= cell_types(region@, cells@).take(
            i as int,
        ).push(cell_types(region@, cells@)[i as int]));
        i = i + 1;
    }
    assert(cell_types(region@, cells@).take(i as int) =~= cell_types(region@, cells@));
    r
}

/// Whether any of the values borrows.
pub fn run_borrows(region: &Region, values: &Vec<Carried>) -> (r: bool)
    ensures
        r == any_borrows(region@, values@),
{
    let mut i: usize = 0;
    while i < values.len()
        invariant
            i <= values.len(),
            forall|k: int| 0 <= k < i ==> !region@.borrows(#[trigger] values@[k]),
        decreases values.len() - i,
    {
        if region.has_reach_members(values[i]) {
            assert(region@.borrows(values@[i as int]));
            return true;
        }
        i = i + 1;
    }
    false
}

/// Names a tag that none of the variants has.
fn unknown_tag_error(labels: &Labels, schema: &Vec<Field>, tag: Symbol) -> (r: KError)
    ensures
        r@ == unknown_tag(labels, schema@, tag),
{
    let known = join(&labels.render_all(&names_of_fields(schema)), ", ");
    let mut text = enclosed("tag `", labels.render(tag).as_str(), "` not in union (known: ");
    text.append(known.as_str());
    text.append(")");
    proof {
        assert(text@ =~= "tag `"@ + labels.text_of(tag) + "` not in union (known: "@ + joined(
            labels.texts_of(field_names(schema@)),
            ", "@,
        ) + ")"@);
    }
    KError::new(KErrorKind::shape_error(text))
}

/// Builds a wrapper around a record.
fn finish_record_newtype(
    types: &mut TypeRegistry,
    labels: &Labels,
    region: &mut Region,
    identity: KType,
    field_names: &Vec<Symbol>,
    values: &Vec<Carried>,
) -> (r: Result<Carried, KError>)
    requires
        old(types).wf(),
        constructible(
            old(types),
            old(region)@,
            CtorView::RecordNewType { identity, field_names: field_names@ },
            values@,
        ),
    ensures
        final(types).wf(),
        final(types).extends(old(types)),
        constructed(
            old(types),
            final(types),
            labels,
            old(region)@,
            CtorView::RecordNewType { identity, field_names: field_names@ },
            values@,
            (crate::outcome::result_view(r), final(region)@),
        ),
{
    let ghost before = region@;
    let run = CellRun::gather(values);
    let cells = pair_cells(field_names, &run);
    proof {
        assert forall|i: int| 0 <= i < cells@.len() implies (#[trigger] cells@[i]).value is Object by {
            assert(values@[i] is Object);
        }
    }
    let own_fields = types_of_cells(region, &cells);
    proof {
        let node = TypeNode::Record { fields: own_fields };
        assert forall|k: int| 0 <= k < crate::ktype::children(node).len() implies
            crate::ktype::precedes(
            #[trigger] crate::ktype::children(node)[k],
            types.nodes@.len() as int,
        ) by {
            assert(values@[k] is Object);
            assert(field_types(own_fields@)[k] == own_fields@[k].ktype);
        }
    }
    let own = types.record(own_fields);
    match check_record_newtype_repr(types, labels, region, identity, &cells, own) {
        Ok(_) => {
            let borrows = run_borrows(region, values);
            let record = region.add_object(KObject::Record { fields: cells, ktype: own }, borrows);
            let wrapped = region.add_object(
                KObject::Wrapped { inner: record, type_id: identity },
                borrows,
            );
            Ok(Carried::Object(wrapped))
        },
        Err(e) => Err(e),
    }
}

/// Builds a value of a nominal type once every value that goes into it has landed. The checks come
/// first; nothing is built when one of them fails.
pub fn finish_witnessed(
    types: &mut TypeRegistry,
    labels: &Labels,
    region: &mut Region,
    kind: &CtorKind,
    values: &Vec<Carried>,
) -> (r: Result<Carried, KError>)
    requires
        old(types).wf(),
        constructible(old(types), old(region)@, kind@, values@),
    ensures
        final(types).wf(),
        final(types).extends(old(types)),
        constructed(
            old(types),
            final(types),
            labels,
            old(region)@,
            kind@,
            values@,
            (crate::outcome::result_view(r), final(region)@),
        ),
{
    match kind {
        CtorKind::NewType { identity } => {
            assert(values@[0] is Object);
            let value = carried_object(values[0]);
            match check_newtype_repr(types, labels, region, *identity, value) {
                Ok(collapse) => {
                    let inner = if collapse {
                        peel(region, value)
                    } else {
                        value
                    };
                    let borrows = region.has_reach_members(Carried::Object(value));
                    let wrapped = region.add_object(
                        KObject::Wrapped { inner, type_id: *identity },
                        borrows,
                    );
                    Ok(Carried::Object(wrapped))
                },
                Err(e) => Err(e),
            }
        },
        CtorKind::RecordNewType { identity, field_names } => finish_record_newtype(
            types,
            labels,
            region,
            *identity,
            field_names,
            values,
        ),
        CtorKind::Tagged { schema, member, tag } => {
            match schema_field(schema, *tag) {
                None => Err(unknown_tag_error(labels, schema, *tag)),
                Some(expected) => {
                    assert(values@[0] is Object);
                    let value = carried_object(values[0]);
                    if !types.matches_value(region, expected, value) {
                        return Err(
                            mismatched_value(
                                types.name(labels, expected),
                                types.name(labels, region.object_type(value)),
                            ),
                        );
                    }
                    let borrows = region.has_reach_members(Carried::Object(value));
                    let tagged = region.add_object(
                        KObject::Tagged { tag: *tag, value, identity: *member },
                        borrows,
                    );
                    Ok(Carried::Object(tagged))
                },
            }
        },
        CtorKind::ApplyConstructor { constructor } => {
            assert(values@[0] is Object);
            let value = carried_object(values[0]);
            match identity_param(types, *constructor) {
                Some(param) => {
                    // The value's full type, its own identity included, is the argument.
                    let arg = region.object_type(value);
                    let mut arguments: Vec<Field> = Vec::new();
                    arguments.push(Field { name: param, ktype: arg });
                    proof {
                        assert(arguments@ =~= seq![Field { name: param, ktype: arg }]);
                        let node = TypeNode::ConstructorApply {
                            constructor: *constructor,
                            arguments,
                        };
                        assert(field_types(arguments@) =~= seq![arg]);
                        assert(crate::ktype::children(node) =~= seq![*constructor, arg]);
                        assert(field_names(arguments@) =~= seq![param]);
                    }
                    let type_id = types.constructor_apply(*constructor, arguments);
                    let inner = peel(region, value);
                    let borrows = region.has_reach_members(Carried::Object(value));
                    let wrapped = region.add_object(
                        KObject::Wrapped { inner, type_id },
                        borrows,
                    );
                    proof {
                        assert(wraps_type_of(
                            types,
                            old(region)@,
                            *constructor,
                            param,
                            value,
                            type_id,
                        ));
                    }
                    Ok(Carried::Object(wrapped))
                },
                None => unreached(),
            }
        },
    }
}

/// The identity that a value of a construction is known by: the wrapper's own type, the variant's
/// member, or the constructor with its parameter bound to the type of the value inside.
pub open spec fn carries_identity(
    types: &TypeRegistry,
    region: RegionView,
    kind: CtorView,
    values: Seq<Carried>,
    built: ObjectView,
) -> bool {
    match kind {
        CtorView::NewType { identity } => built.ktype() == identity,
        CtorView::RecordNewType { identity, .. } => built.ktype() == identity,
        CtorView::Tagged { member, tag, .. } => built == (ObjectView::Tagged {
            tag,
            value: object_of(values[0]),
            identity: member,
        }),
        CtorView::ApplyConstructor { constructor } => types.node_of(built.ktype()) matches Some(
            TypeNode::ConstructorApply { constructor: head, .. },
        ) && head == constructor,
    }
}

/// A construction that succeeds gives a value under the identity that was asked for and keeps
/// everything that was there; one that is refused builds nothing at all.
pub proof fn constructions_build_under_their_identity(
    before: &TypeRegistry,
    after: &TypeRegistry,
    labels: &Labels,
    region: RegionView,
    kind: CtorView,
    values: Seq<Carried>,
    result: (Result<Carried, ErrorView>, RegionView),
)
    requires
        constructed(before, after, labels, region, kind, values, result),
        region.objects.len() + 2 <= usize::MAX,
    ensures
        match result.0 {
            Ok(built) => built is Object && carries_identity(
                after,
                region,
                kind,
                values,
                result.1.object(object_of(built)),
            ) && result.1.extends(region),
            Err(_) => result.1 == region,
        },
{
}

/// Wrapping a value under a type that only renames its own does not stack wrapper layers: both
/// wrappers hold the very same value.
pub proof fn renaming_does_not_stack_layers(
    types: &TypeRegistry,
    labels: &Labels,
    region: RegionView,
    identity: KType,
    value: ObjId,
)
    requires
        types.repr_of(identity) is Some,
        region.object(value) is Wrapped,
        types.repr_of(identity) == Some(region.object(value).ktype()),
        region.objects.len() < usize::MAX,
    ensures
        ({
            let (built, grown) = newtype_built(types, labels, region, identity, value);
            built is Ok ==> grown.object(object_of(built->Ok_0)) == (ObjectView::Wrapped {
                inner: region.object(value)->inner,
                type_id: identity,
            })
        }),
{
}

/// An identity wrapper peels the one wrapper layer of the value that it is built around, and keeps
/// the identity that the layer had as its type argument.
pub proof fn identity_wrappers_peel_one_layer(
    before: &TypeRegistry,
    after: &TypeRegistry,
    labels: &Labels,
    region: RegionView,
    constructor: KType,
    value: ObjId,
    result: (Result<Carried, ErrorView>, RegionView),
)
    requires
        constructed(
            before,
            after,
            labels,
            region,
            CtorView::ApplyConstructor { constructor },
            seq![Carried::Object(value)],
            result,
        ),
        identity_wrapper_param(before, constructor) is Some,
        region.object(value) is Wrapped,
        region.objects.len() < usize::MAX,
    ensures
        result.0 is Ok,
        ({
            let built = result.1.object(object_of(result.0->Ok_0));
            &&& built matches ObjectView::Wrapped { inner, type_id } && inner == region.object(
                value,
            )->inner && wraps_type_of(
                after,
                region,
                constructor,
                identity_wrapper_param(before, constructor)->0,
                value,
                type_id,
            )
        }),
{
}

} // verus!
