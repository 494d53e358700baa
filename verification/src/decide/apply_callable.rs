//! Applying what a head resolved to: a nominal type constructs, a type constructor takes named
//! type arguments, a function is called with named arguments.

use super::constructors::{
    cell_requests, cells_of_literal, construct_tagged, dispatch_construct_apply,
    dispatch_construct_newtype, dispatch_construct_record_newtype, dispatch_construct_tagged,
    launched, literal_cells, literal_names, names_of_literal, prepare_args, prepared_args,
    single_construction, tagged_construction, ValueCell,
};
use super::keyworded::{install_eager_subs, staged_call, NO_MATCH};
use super::staging::{
    stage_all_eager_parts, synthesized, synthesized_meta, walk, with_holes, PartWalk, StagedSubs,
};
use super::DecideCtx;
use crate::ast::{bare, ExpressionPart, Spanned, WorkingPart};
use crate::error::{
    dispatch_failed, raised, ErrorKindView, ErrorView, KError, KErrorKind, Subject,
};
use crate::function::{
    classify_for_pick, named_call_error, named_slots, reconstruct_positional, wrap_slots,
};
use crate::ktype::{
    applications_are_order_blind, children, field_names, is_application_node, keyed_by_name, Field,
    KType, NodeSchema, TypeNode, TypeRegistry,
};
use crate::outcome::{
    await_requests, awaiting, dep_error_frame, dep_frame, fail, failed, finished, request_deps,
    CtorView, DepPlacement, DepRequest, Finish, FinishView, Outcome, OutcomeView,
};
use crate::region::{FieldPart, NodeMeta, Region, RegionView};
use crate::symbol::{Labels, Symbol};
use crate::text::{
    all_quoted, decimal, decimal_text, enclosed, join, joined, ordered, owned, quoted_list, sort,
    texts,
};
use crate::value::{Carried, ExprId, FnId};
use vstd::prelude::*;
use vstd::string::StringExecFns;

verus! {

/// Why a parenthesized group is no argument list of a function.
pub const NAMED_ONLY: &'static str =
    "named arguments use a record literal `{name = value}`, not a parenthesized group";

/// Why a record literal is no argument list of a construction.
pub const POSITIONAL_ONLY: &'static str =
    "positional construction takes `(value)`, not a record literal `{name = value}`";

/// The argument body of a call.
pub enum CallBody {
    /// `{name = value}`
    Named(Vec<FieldPart>),
    /// `(value)`
    Positional(Vec<Spanned>),
}

/// The content of a [`CallBody`].
pub enum BodyView {
    Named(Seq<FieldPart>),
    Positional(Seq<Spanned>),
}

impl View for CallBody {
    type V = BodyView;

    open spec fn view(&self) -> BodyView {
        match *self {
            CallBody::Named(fields) => BodyView::Named(fields@),
            CallBody::Positional(parts) => BodyView::Positional(parts@),
        }
    }
}

/// What a head resolved to.
#[derive(Clone, Copy, PartialEq, Eq, Structural, Debug)]
pub enum ResolvedCallable {
    Constructor { identity: KType },
    Function(FnId),
}

/// The slots behind the head.
pub open spec fn behind_head(parts: Seq<Spanned>) -> Seq<Spanned> {
    if parts.len() == 0 {
        parts
    } else {
        parts.skip(1)
    }
}

/// The slots behind the head.
pub fn body_slots(parts: &Vec<Spanned>) -> (r: Vec<Spanned>)
    ensures
        r@ == behind_head(parts@),
{
    let mut r: Vec<Spanned> = Vec::new();
    let mut i: usize = 1;
    let ghost all = behind_head(parts@);
    while i < parts.len()
        invariant
            1 <= i,
            i <= parts.len() || parts.len() == 0,
            parts@.len() > 0 ==> r@ == all.take(i as int - 1),
            parts@.len() == 0 ==> r@.len() == 0,
            all == behind_head(parts@),
        decreases parts.len() - i,
    {
        r.push(parts[i]);
        assert(all.take(i as int) =~= all.take(i as int - 1).push(parts@[i as int]));
        i = i + 1;
    }
    assert(r@ =~= all);
    r
}

/// The record literal that makes up the whole body.
pub open spec fn literal_body(region: RegionView, body: Seq<Spanned>) -> Option<Seq<FieldPart>> {
    if body.len() == 1 {
        match body[0].value {
            WorkingPart::Ast(ExpressionPart::RecordLiteral(fields)) => Some(region.record(fields)),
            _ => None,
        }
    } else {
        None
    }
}

/// The record literal that makes up the whole body.
fn sole_literal(region: &Region, body: &Vec<Spanned>) -> (r: Option<Vec<FieldPart>>)
    ensures
        match r {
            Some(fields) => literal_body(region@, body@) == Some(fields@),
            None => literal_body(region@, body@) is None,
        },
{
    if body.len() == 1 {
        if let WorkingPart::Ast(ExpressionPart::RecordLiteral(fields)) = body[0].value {
            return Some(region.record_of(fields));
        }
    }
    None
}

/// The argument body of a call: one record literal, or one group.
pub open spec fn call_body(region: RegionView, parts: Seq<Spanned>) -> Option<BodyView> {
    let body = behind_head(parts);
    match literal_body(region, body) {
        Some(fields) => Some(BodyView::Named(fields)),
        None => if body.len() == 1 {
            match body[0].value {
                WorkingPart::Ast(ExpressionPart::Expression(inner)) => Some(
                    BodyView::Positional(region.parts(inner)),
                ),
                _ => None,
            }
        } else {
            None
        },
    }
}

/// The failure of a call whose body is neither a record literal nor a group.
pub open spec fn no_match(expr: ExprId) -> ErrorView {
    raised(ErrorKindView::dispatch_failed(Subject::Expr(expr), NO_MATCH@))
}

/// Classifies the argument body of a call.
pub fn extract_call_body(region: &Region, expr: ExprId) -> (r: Result<CallBody, KError>)
    ensures
        match r {
            Ok(body) => call_body(region@, region@.parts(expr)) == Some(body@),
            Err(e) => call_body(region@, region@.parts(expr)) is None && e@ == no_match(expr),
        },
{
    let parts = region.parts_of(expr);
    let body = body_slots(&parts);
    if let Some(fields) = sole_literal(region, &body) {
        return Ok(CallBody::Named(fields));
    }
    if body.len() == 1 {
        if let WorkingPart::Ast(ExpressionPart::Expression(inner)) = body[0].value {
            return Ok(CallBody::Positional(region.parts_of(inner)));
        }
    }
    Err(dispatch_failed(expr, NO_MATCH))
}

/// The failure of a call whose body has the wrong shape for what the head resolved to.
pub open spec fn body_shape_failed(expr: ExprId, reason: Seq<char>) -> OutcomeView {
    failed(raised(ErrorKindView::dispatch_failed(Subject::Expr(expr), reason)))
}

/// Fails a call whose body has the wrong shape.
pub fn body_shape_err(expr: ExprId, reason: &str) -> (r: Outcome)
    ensures
        r@ == body_shape_failed(expr, reason@),
{
    fail(dispatch_failed(expr, reason))
}

/// The last type supplied under `name`.
pub open spec fn supplied_type(supplied: Seq<Field>, name: Symbol) -> Option<KType>
    decreases supplied.len(),
{
    if supplied.len() == 0 {
        None
    } else if supplied.last().name == name {
        Some(supplied.last().ktype)
    } else {
        supplied_type(supplied.drop_last(), name)
    }
}

/// The last type supplied under `name`.
fn find_supplied(supplied: &Vec<Field>, name: Symbol) -> (r: Option<KType>)
    ensures
        r == supplied_type(supplied@, name),
{
    let mut i: usize = supplied.len();
    proof {
        assert(supplied@.take(i as int) =~= supplied@);
    }
    while i > 0
        invariant
            i <= supplied.len(),
            supplied_type(supplied@, name) == supplied_type(supplied@.take(i as int), name),
        decreases i,
    {
        i = i - 1;
        proof {
            assert(supplied@.take(i as int + 1).drop_last() =~= supplied@.take(i as int));
        }
        if supplied[i].name == name {
            return Some(supplied[i].ktype);
        }
    }
    None
}

/// The declared parameters that no argument is supplied for, in declaration order.
pub open spec fn missing_params(params: Seq<Symbol>, supplied: Seq<Field>) -> Seq<Symbol>
    decreases params.len(),
{
    if params.len() == 0 {
        Seq::empty()
    } else {
        let earlier = missing_params(params.drop_last(), supplied);
        if supplied_type(supplied, params.last()) is None {
            earlier.push(params.last())
        } else {
            earlier
        }
    }
}

/// The supplied names that no parameter declares, as they were supplied.
pub open spec fn unknown_args(params: Seq<Symbol>, supplied: Seq<Field>) -> Seq<Symbol>
    decreases supplied.len(),
{
    if supplied.len() == 0 {
        Seq::empty()
    } else {
        let earlier = unknown_args(params, supplied.drop_last());
        if params.contains(supplied.last().name) {
            earlier
        } else {
            earlier.push(supplied.last().name)
        }
    }
}

/// Whether `items` holds `wanted`.
fn holds_name(items: &Vec<Symbol>, wanted: Symbol) -> (r: bool)
    ensures
        r == items@.contains(wanted),
{
    let mut i: usize = 0;
    while i < items.len()
        invariant
            i <= items.len(),
            forall|k: int| 0 <= k < i ==> items@[k] != wanted,
        decreases items.len() - i,
    {
        if items[i] == wanted {
            return true;
        }
        i = i + 1;
    }
    false
}

/// The declared parameters that no argument is supplied for.
fn list_missing(params: &Vec<Symbol>, supplied: &Vec<Field>) -> (r: Vec<Symbol>)
    ensures
        r@ == missing_params(params@, supplied@),
{
    let mut r: Vec<Symbol> = Vec::new();
    let mut i: usize = 0;
    proof {
        assert(params@.take(0) =~= Seq::<Symbol>::empty());
    }
    while i < params.len()
        invariant
            i <= params.len(),
            r@ == missing_params(params@.take(i as int), supplied@),
        decreases params.len() - i,
    {
        proof {
            assert(params@.take(i as int + 1).drop_last() =~= params@.take(i as int));
        }
        if find_supplied(supplied, params[i]).is_none() {
            r.push(params[i]);
        }
        i = i + 1;
    }
    assert(params@.take(i as int) =~= params@);
    r
}

/// The supplied names that no parameter declares.
fn list_unknown(params: &Vec<Symbol>, supplied: &Vec<Field>) -> (r: Vec<Symbol>)
    ensures
        r@ == unknown_args(params@, supplied@),
{
    let mut r: Vec<Symbol> = Vec::new();
    let mut i: usize = 0;
    proof {
        assert(supplied@.take(0) =~= Seq::<Field>::empty());
    }
    while i < supplied.len()
        invariant
            i <= supplied.len(),
            r@ == unknown_args(params@, supplied@.take(i as int)),
        decreases supplied.len() - i,
    {
        proof {
            assert(supplied@.take(i as int + 1).drop_last() =~= supplied@.take(i as int));
        }
        if !holds_name(params, supplied[i].name) {
            r.push(supplied[i].name);
        }
        i = i + 1;
    }
    assert(supplied@.take(i as int) =~= supplied@);
    r
}

/// The names, each between backticks, with commas between them.
pub open spec fn name_list(names: Seq<Seq<char>>) -> Seq<char> {
    joined(all_quoted(names), ", "@)
}

/// What is wrong with a run of named type arguments.
pub open spec fn argument_problems(labels: &Labels, missing: Seq<Symbol>, unknown: Seq<Symbol>) -> Seq<
    Seq<char>,
> {
    let first = if missing.len() > 0 {
        seq!["missing "@ + name_list(labels.texts_of(missing))]
    } else {
        Seq::empty()
    };
    if unknown.len() > 0 {
        first.push("unknown "@ + name_list(ordered(labels.texts_of(unknown))))
    } else {
        first
    }
}

/// The arguments of a type constructor in declaration order, or what is wrong with them.
pub open spec fn apply_args(
    types: &TypeRegistry,
    labels: &Labels,
    identity: KType,
    params: Seq<Symbol>,
    supplied: Seq<Field>,
) -> Result<Seq<Field>, ErrorView> {
    let missing = missing_params(params, supplied);
    let unknown = unknown_args(params, supplied);
    if missing.len() > 0 || unknown.len() > 0 {
        Err(
            raised(
                ErrorKindView::shape_error(
                    "`"@ + types.name_text(labels, identity) + "` takes type parameters "@
                        + name_list(labels.texts_of(params)) + " — "@ + joined(
                        argument_problems(labels, missing, unknown),
                        ", "@,
                    ),
                ),
            ),
        )
    } else {
        Ok(bound_args(params, supplied))
    }
}

/// Every parameter with the type supplied for it.
pub open spec fn bound_args(params: Seq<Symbol>, supplied: Seq<Field>) -> Seq<Field> {
    params.map_values(
        |param: Symbol| Field { name: param, ktype: supplied_type(supplied, param)->0 },
    )
}

/// Where nothing is missing, every parameter has a type.
proof fn nothing_missing(params: Seq<Symbol>, supplied: Seq<Field>, i: int)
    requires
        missing_params(params, supplied).len() == 0,
        0 <= i < params.len(),
    ensures
        supplied_type(supplied, params[i]) is Some,
    decreases params.len(),
{
    let earlier = missing_params(params.drop_last(), supplied);
    assert(earlier.len() == 0);
    if i < params.len() - 1 {
        nothing_missing(params.drop_last(), supplied, i);
        assert(params.drop_last()[i] == params[i]);
    }
}

/// What is wrong with a run of named type arguments.
fn describe_problems(labels: &Labels, missing: &Vec<Symbol>, unknown: &Vec<Symbol>) -> (r: Vec<
    String,
>)
    ensures
        texts(r@) == argument_problems(labels, missing@, unknown@),
{
    let mut r: Vec<String> = Vec::new();
    let ghost none: Seq<Seq<char>> = Seq::empty();
    assert(texts(r@) =~= none);
    if missing.len() > 0 {
        r.push(enclosed("missing ", quoted_list(&labels.render_all(missing)).as_str(), ""));
        proof {
            reveal_strlit("");
            let own = "missing "@ + name_list(labels.texts_of(missing@));
            assert(own + ""@ =~= own);
            assert(texts(r@) =~= seq![own]);
        }
    }
    if unknown.len() > 0 {
        let names = sort(labels.render_all(unknown));
        let ghost earlier = texts(r@);
        r.push(enclosed("unknown ", quoted_list(&names).as_str(), ""));
        proof {
            reveal_strlit("");
            let own = "unknown "@ + name_list(ordered(labels.texts_of(unknown@)));
            assert(own + ""@ =~= own);
            assert(texts(r@) =~= earlier.push(own));
        }
    }
    r
}

/// Checks named type arguments against the declared parameters and puts them in declaration order.
pub fn build_apply_args(
    types: &TypeRegistry,
    labels: &Labels,
    identity: KType,
    params: &Vec<Symbol>,
    supplied: &Vec<Field>,
) -> (r: Result<Vec<Field>, KError>)
    ensures
        match r {
            Ok(args) => apply_args(types, labels, identity, params@, supplied@) == Ok::<
                Seq<Field>,
                ErrorView,
            >(args@),
            Err(e) => apply_args(types, labels, identity, params@, supplied@) == Err::<
                Seq<Field>,
                ErrorView,
            >(e@),
        },
{
    let missing = list_missing(params, supplied);
    let unknown = list_unknown(params, supplied);
    if missing.len() > 0 || unknown.len() > 0 {
        let problems = join(&describe_problems(labels, &missing, &unknown), ", ");
        let mut text = enclosed(
            "`",
            types.name(labels, identity).as_str(),
            "` takes type parameters ",
        );
        text.append(quoted_list(&labels.render_all(params)).as_str());
        text.append(" — ");
        text.append(problems.as_str());
        return Err(KError::new(KErrorKind::shape_error(text)));
    }
    let mut args: Vec<Field> = Vec::new();
    let mut i: usize = 0;
    let ghost all = bound_args(params@, supplied@);
    while i < params.len()
        invariant
            i <= params.len(),
            missing_params(params@, supplied@).len() == 0,
            all == bound_args(params@, supplied@),
            args@ == all.take(i as int),
        decreases params.len() - i,
    {
        proof {
            nothing_missing(params@, supplied@, i as int);
        }
        if let Some(ktype) = find_supplied(supplied, params[i]) {
            args.push(Field { name: params[i], ktype });
        }
        assert(all.take(i as int + 1) =~= all.take(i as int).push(all[i as int]));
        i = i + 1;
    }
    assert(all.take(i as int) =~= all);
    Ok(args)
}

/// Whether `applied` is `identity` with its parameters bound to `args`, in that order.
pub open spec fn applies(types: &TypeRegistry, identity: KType, args: Seq<Field>, applied: KType) -> bool {
    types.node_of(applied) matches Some(
        TypeNode::ConstructorApply { constructor, arguments },
    ) && constructor == identity && arguments@ == args
}

/// What applying a type constructor to supplied types comes to, over the registry as it was and as
/// it is afterwards.
pub open spec fn type_application(
    before: &TypeRegistry,
    after: &TypeRegistry,
    labels: &Labels,
    identity: KType,
    params: Seq<Symbol>,
    supplied: Result<Seq<Field>, ErrorView>,
    outcome: OutcomeView,
) -> bool {
    match supplied {
        Err(e) => after.nodes@ == before.nodes@ && outcome == failed(e),
        Ok(fields) => match apply_args(before, labels, identity, params, fields) {
            Err(e) => after.nodes@ == before.nodes@ && outcome == failed(e),
            Ok(args) => finished_with_application(before, after, identity, args, outcome),
        },
    }
}

/// Whether the slot has come to `identity` with its parameters bound to `args`, and the registry to
/// that type more where it did not have it.
pub open spec fn finished_with_application(
    before: &TypeRegistry,
    after: &TypeRegistry,
    identity: KType,
    args: Seq<Field>,
    outcome: OutcomeView,
) -> bool {
    exists|own: KType|
        {
            &&& #[trigger] applies(after, identity, args, own)
            &&& after.gained_application(before, identity, args, own)
            &&& outcome == finished(Carried::Type(own))
        }
}

/// Whether every supplied type is one that the registry holds.
pub open spec fn holds_all(types: &TypeRegistry, supplied: Seq<Field>) -> bool {
    forall|i: int| 0 <= i < supplied.len() ==> types.holds((#[trigger] supplied[i]).ktype)
}

proof fn supplied_types_are_held(types: &TypeRegistry, supplied: Seq<Field>, name: Symbol)
    requires
        holds_all(types, supplied),
    ensures
        supplied_type(supplied, name) matches Some(kt) ==> types.holds(kt),
    decreases supplied.len(),
{
    if supplied.len() > 0 {
        assert(types.holds(supplied[supplied.len() - 1].ktype));
        assert forall|i: int| 0 <= i < supplied.drop_last().len() implies types.holds(
            (#[trigger] supplied.drop_last()[i]).ktype,
        ) by {
            assert(supplied.drop_last()[i] == supplied[i]);
        }
        supplied_types_are_held(types, supplied.drop_last(), name);
    }
}

/// What is supplied for the parameters binds them in declared order.
proof fn bound_args_keep_the_order(params: Seq<Symbol>, supplied: Seq<Field>)
    ensures
        field_names(bound_args(params, supplied)) == params,
        keyed_by_name(bound_args(params, supplied)),
{
    assert(field_names(bound_args(params, supplied)) =~= params);
}

/// Applies a type constructor to supplied types.
fn apply_supplied(
    types: &mut TypeRegistry,
    labels: &Labels,
    identity: KType,
    params: &Vec<Symbol>,
    supplied: &Vec<Field>,
) -> (r: Outcome)
    requires
        old(types).wf(),
        old(types).holds(identity),
        old(types).constructor_params(identity) == Some(params@),
        holds_all(old(types), supplied@),
    ensures
        final(types).wf(),
        final(types).extends(old(types)),
        type_application(
            old(types),
            final(types),
            labels,
            identity,
            params@,
            Ok(supplied@),
            r@,
        ),
{
    match build_apply_args(types, labels, identity, params, supplied) {
        Ok(args) => {
            proof {
                let node = TypeNode::ConstructorApply { constructor: identity, arguments: args };
                assert(args@ == bound_args(params@, supplied@));
                bound_args_keep_the_order(params@, supplied@);
                assert forall|k: int| 0 <= k < children(node).len() implies crate::ktype::precedes(
                    #[trigger] children(node)[k],
                    types.nodes@.len() as int,
                ) by {
                    if k > 0 {
                        nothing_missing(params@, supplied@, k - 1);
                        supplied_types_are_held(types, supplied@, params@[k - 1]);
                        assert(children(node)[k] == args@[k - 1].ktype);
                    }
                }
            }
            let applied = types.constructor_apply(identity, args);
            let r = Outcome::Done(Ok(Carried::Type(applied)));
            assert(applies(types, identity, args@, applied));
            assert(finished_with_application(old(types), types, identity, args@, r@));
            r
        },
        Err(e) => fail(e),
    }
}

/// The types that a run of results supplies under `names`; the first result that is no type ends
/// it.
pub open spec fn supplied_types(
    types: &TypeRegistry,
    labels: &Labels,
    region: RegionView,
    names: Seq<Symbol>,
    results: Seq<Carried>,
    upto: nat,
) -> Result<Seq<Field>, ErrorView>
    decreases upto,
{
    if upto == 0 {
        Ok(Seq::empty())
    } else {
        let at = (upto - 1) as int;
        match supplied_types(types, labels, region, names, results, at as nat) {
            Err(e) => Err(e),
            Ok(earlier) => match results[at] {
                Carried::Type(ktype) => Ok(earlier.push(Field { name: names[at], ktype })),
                Carried::Object(object) => Err(
                    raised(
                        ErrorKindView::TypeMismatch {
                            arg: labels.text_of(names[at]),
                            expected: "Type"@,
                            got: types.name_text(labels, region.object(object).ktype()),
                        },
                    ),
                ),
                Carried::UnresolvedType(name) => Err(
                    raised(ErrorKindView::UnboundName(labels.text_of(name))),
                ),
            },
        }
    }
}

proof fn first_error_ends_supply(
    types: &TypeRegistry,
    labels: &Labels,
    region: RegionView,
    names: Seq<Symbol>,
    results: Seq<Carried>,
    upto: nat,
    end: nat,
)
    requires
        upto <= end,
        supplied_types(types, labels, region, names, results, upto) is Err,
    ensures
        supplied_types(types, labels, region, names, results, end) == supplied_types(
            types,
            labels,
            region,
            names,
            results,
            upto,
        ),
    decreases end - upto,
{
    if upto < end {
        first_error_ends_supply(types, labels, region, names, results, upto, (end - 1) as nat);
    }
}

/// The types that a run of results supplies under `names`.
pub fn collect_supplied(
    types: &TypeRegistry,
    labels: &Labels,
    region: &Region,
    names: &Vec<Symbol>,
    results: &Vec<Carried>,
) -> (r: Result<Vec<Field>, KError>)
    requires
        names@.len() == results@.len(),
        forall|i: int|
            0 <= i < results@.len() ==> (#[trigger] results@[i] matches Carried::Type(kt)
                ==> types.holds(kt)),
    ensures
        match r {
            Ok(fields) => supplied_types(
                types,
                labels,
                region@,
                names@,
                results@,
                results@.len(),
            ) == Ok::<Seq<Field>, ErrorView>(fields@) && holds_all(types, fields@),
            Err(e) => supplied_types(types, labels, region@, names@, results@, results@.len())
                == Err::<Seq<Field>, ErrorView>(e@),
        },
{
    let mut fields: Vec<Field> = Vec::new();
    let mut i: usize = 0;
    while i < results.len()
        invariant
            i <= results.len(),
            names@.len() == results@.len(),
            forall|k: int|
                0 <= k < results@.len() ==> (#[trigger] results@[k] matches Carried::Type(kt)
                    ==> types.holds(kt)),
            supplied_types(types, labels, region@, names@, results@, i as nat) == Ok::<
                Seq<Field>,
                ErrorView,
            >(fields@),
            holds_all(types, fields@),
        decreases results.len() - i,
    {
        match results[i] {
            Carried::Type(ktype) => {
                fields.push(Field { name: names[i], ktype });
            },
            Carried::Object(object) => {
                proof {
                    first_error_ends_supply(
                        types,
                        labels,
                        region@,
                        names@,
                        results@,
                        i as nat + 1,
                        results@.len(),
                    );
                }
                return Err(
                    KError::new(
                        KErrorKind::TypeMismatch {
                            arg: labels.render(names[i]),
                            expected: owned("Type"),
                            got: types.name(labels, region.object_type(object)),
                        },
                    ),
                );
            },
            Carried::UnresolvedType(name) => {
                proof {
                    first_error_ends_supply(
                        types,
                        labels,
                        region@,
                        names@,
                        results@,
                        i as nat + 1,
                        results@.len(),
                    );
                }
                return Err(KError::new(KErrorKind::UnboundName(labels.render(name))));
            },
        }
        i = i + 1;
    }
    Ok(fields)
}

/// Binds the parameters of a type constructor once every argument has landed.
pub fn finish_named_type_args(
    types: &mut TypeRegistry,
    labels: &Labels,
    region: &Region,
    identity: KType,
    params: &Vec<Symbol>,
    names: &Vec<Symbol>,
    results: &Vec<Carried>,
) -> (r: Outcome)
    requires
        old(types).wf(),
        old(types).holds(identity),
        old(types).constructor_params(identity) == Some(params@),
        names@.len() == results@.len(),
        forall|i: int|
            0 <= i < results@.len() ==> (#[trigger] results@[i] matches Carried::Type(kt)
                ==> old(types).holds(kt)),
    ensures
        final(types).wf(),
        final(types).extends(old(types)),
        type_application(
            old(types),
            final(types),
            labels,
            identity,
            params@,
            supplied_types(old(types), labels, region@, names@, results@, results@.len()),
            r@,
        ),
{
    match collect_supplied(types, labels, region, names, results) {
        Ok(supplied) => apply_supplied(types, labels, identity, params, &supplied),
        Err(e) => fail(e),
    }
}

/// The slot waits for every type argument, then binds the parameters.
pub open spec fn type_args_awaited(
    region: RegionView,
    identity: KType,
    params: Seq<Symbol>,
    fields: Seq<FieldPart>,
) -> OutcomeView {
    awaiting(
        request_deps(cell_requests(region, literal_cells(fields)).0),
        Some(dep_frame()),
        FinishView::NamedTypeArgs { identity, params, names: literal_names(fields) },
    )
}

/// The work that evaluates every field of a record literal, each on its own.
fn request_fields(region: &mut Region, fields: &Vec<FieldPart>) -> (r: Vec<DepRequest>)
    ensures
        (r@, final(region)@) == cell_requests(old(region)@, literal_cells(fields@)),
{
    let cells = cells_of_literal(fields);
    let ghost before = region@;
    let mut requests: Vec<DepRequest> = Vec::new();
    let mut i: usize = 0;
    proof {
        assert(cells@.take(0) =~= Seq::<ValueCell>::empty());
    }
    while i < cells.len()
        invariant
            i <= cells.len(),
            (requests@, region@) == cell_requests(before, cells@.take(i as int)),
        decreases cells.len() - i,
    {
        proof {
            assert(cells@.take(i as int + 1).drop_last() =~= cells@.take(i as int));
        }
        let expr = match cells[i] {
            ValueCell::Part(part) => region.add_lone(
                bare(part),
                NodeMeta { span: None, plan: None, raw: None },
            ),
            ValueCell::Synthesized(expr) => expr,
        };
        requests.push(DepRequest::Dispatch { expr, placement: DepPlacement::OwnScope });
        i = i + 1;
    }
    assert(cells@.take(i as int) =~= cells@);
    requests
}

/// What applying a type constructor to a record of named type arguments comes to. An empty record
/// leaves nothing to wait for.
pub open spec fn named_type_args(
    before: &TypeRegistry,
    after: &TypeRegistry,
    labels: &Labels,
    region: RegionView,
    identity: KType,
    params: Seq<Symbol>,
    fields: Seq<FieldPart>,
    result: (OutcomeView, RegionView),
) -> bool {
    if fields.len() == 0 {
        result.1 == region && type_application(
            before,
            after,
            labels,
            identity,
            params,
            Ok(Seq::empty()),
            result.0,
        )
    } else {
        after.nodes@ == before.nodes@ && result == (
            type_args_awaited(region, identity, params, fields),
            cell_requests(region, literal_cells(fields)).1,
        )
    }
}

/// Applies a type constructor to a record of named type arguments.
pub fn apply_named_type_args(
    types: &mut TypeRegistry,
    labels: &Labels,
    region: &mut Region,
    identity: KType,
    params: Vec<Symbol>,
    fields: &Vec<FieldPart>,
) -> (r: Outcome)
    requires
        old(types).wf(),
        old(types).holds(identity),
        old(types).constructor_params(identity) == Some(params@),
    ensures
        final(types).wf(),
        final(types).extends(old(types)),
        named_type_args(
            old(types),
            final(types),
            labels,
            old(region)@,
            identity,
            params@,
            fields@,
            (r@, final(region)@),
        ),
{
    if fields.len() == 0 {
        let none: Vec<Field> = Vec::new();
        assert(none@ =~= Seq::<Field>::empty());
        return apply_supplied(types, labels, identity, &params, &none);
    }
    let names = names_of_literal(fields);
    let requests = request_fields(region, fields);
    await_requests(
        requests,
        Some(dep_error_frame()),
        Finish::NamedTypeArgs { identity, params, names },
    )
}

/// The names of the variants among `members`, in order: the sealed wrappers.
pub open spec fn variant_names(types: &TypeRegistry, members: Seq<KType>) -> Seq<Symbol>
    decreases members.len(),
{
    if members.len() == 0 {
        Seq::empty()
    } else {
        let earlier = variant_names(types, members.drop_last());
        match types.node_of(members.last()) {
            Some(TypeNode::SetMember { name, schema: NodeSchema::NewType(_), .. }) => earlier.push(
                name,
            ),
            _ => earlier,
        }
    }
}

/// The names of the variants of a union, sorted.
pub fn union_member_names(types: &TypeRegistry, labels: &Labels, union: KType) -> (r: String)
    ensures
        r@ == joined(
            ordered(labels.texts_of(variant_names(types, types.members(union)))),
            ", "@,
        ),
{
    let members = types.member_list(union);
    let mut names: Vec<Symbol> = Vec::new();
    let mut i: usize = 0;
    proof {
        assert(members@.take(0) =~= Seq::<KType>::empty());
    }
    while i < members.len()
        invariant
            i <= members.len(),
            names@ == variant_names(types, members@.take(i as int)),
        decreases members.len() - i,
    {
        proof {
            assert(members@.take(i as int + 1).drop_last() =~= members@.take(i as int));
        }
        if let Some(TypeNode::SetMember { name, schema: NodeSchema::NewType(_), .. }) = types.node(
            members[i],
        ) {
            names.push(*name);
        }
        i = i + 1;
    }
    assert(members@.take(i as int) =~= members@);
    join(&sort(labels.render_all(&names)), ", ")
}

/// A name that is no variant of a union.
pub open spec fn unknown_variant(
    types: &TypeRegistry,
    labels: &Labels,
    union: KType,
    name: Symbol,
) -> ErrorView {
    raised(
        ErrorKindView::shape_error(
            "`"@ + labels.text_of(name) + "` is not a variant of the union (variants: "@ + joined(
                ordered(labels.texts_of(variant_names(types, types.members(union)))),
                ", "@,
            ) + ")"@,
        ),
    )
}

/// Names a name that is no variant of a union.
pub fn unknown_variant_error(types: &TypeRegistry, labels: &Labels, union: KType, name: Symbol) -> (r:
    KError)
    ensures
        r@ == unknown_variant(types, labels, union, name),
{
    let mut text = enclosed(
        "`",
        labels.render(name).as_str(),
        "` is not a variant of the union (variants: ",
    );
    text.append(union_member_names(types, labels, union).as_str());
    text.append(")");
    KError::new(KErrorKind::shape_error(text))
}

/// The variant tag that makes up the whole body.
pub open spec fn lone_tag(body: Seq<Spanned>) -> Option<Symbol> {
    if body.len() == 1 {
        match body[0].value {
            WorkingPart::Ast(ExpressionPart::Type(name)) => Some(name),
            _ => None,
        }
    } else {
        None
    }
}

/// What applying a union comes to: a lone tag names the variant, a group builds one.
pub open spec fn union_applied(
    types: &TypeRegistry,
    labels: &Labels,
    region: RegionView,
    union: KType,
    expr: ExprId,
) -> (OutcomeView, RegionView) {
    let parts = region.parts(expr);
    match lone_tag(behind_head(parts)) {
        Some(name) => match types.first_named(types.members(union), name) {
            Some(member) => (finished(Carried::Type(member)), region),
            None => (failed(unknown_variant(types, labels, union, name)), region),
        },
        None => match call_body(region, parts) {
            Some(BodyView::Positional(args)) => match prepared_args(args) {
                Ok((tag, value)) => match types.first_variant(types.members(union), tag) {
                    Some((member, payload)) => (
                        launched(
                            region,
                            seq![ValueCell::Part(value)],
                            CtorView::Tagged {
                                schema: seq![Field { name: tag, ktype: payload }],
                                member,
                                tag,
                            },
                        ),
                        cell_requests(region, seq![ValueCell::Part(value)]).1,
                    ),
                    None => (failed(unknown_variant(types, labels, union, tag)), region),
                },
                Err(e) => (failed(e), region),
            },
            Some(BodyView::Named(_)) => (body_shape_failed(expr, POSITIONAL_ONLY@), region),
            None => (failed(no_match(expr)), region),
        },
    }
}

/// Applies a union.
pub fn apply_union_construct(
    types: &TypeRegistry,
    labels: &Labels,
    region: &mut Region,
    union: KType,
    expr: ExprId,
) -> (r: Outcome)
    ensures
        (r@, final(region)@) == union_applied(types, labels, old(region)@, union, expr),
{
    let parts = region.parts_of(expr);
    let body = body_slots(&parts);
    if body.len() == 1 {
        if let WorkingPart::Ast(ExpressionPart::Type(name)) = body[0].value {
            return match types.union_member_named(union, name) {
                Some(member) => Outcome::Done(Ok(Carried::Type(member))),
                None => fail(unknown_variant_error(types, labels, union, name)),
            };
        }
    }
    match extract_call_body(region, expr) {
        Ok(CallBody::Positional(args)) => match prepare_args(&args) {
            Ok((tag, value)) => match types.union_variant_target(union, tag) {
                Some((member, payload)) => {
                    let mut schema: Vec<Field> = Vec::new();
                    schema.push(Field { name: tag, ktype: payload });
                    assert(schema@ =~= seq![Field { name: tag, ktype: payload }]);
                    construct_tagged(region, member, schema, tag, value)
                },
                None => fail(unknown_variant_error(types, labels, union, tag)),
            },
            Err(e) => fail(e),
        },
        Ok(CallBody::Named(_)) => body_shape_err(expr, POSITIONAL_ONLY),
        Err(e) => fail(e),
    }
}

/// A type that no value is built of, asked to build one.
pub open spec fn not_constructible(types: &TypeRegistry, labels: &Labels, identity: KType) -> ErrorView {
    raised(
        ErrorKindView::TypeMismatch {
            arg: "verb"@,
            expected: "constructible Type"@,
            got: types.name_text(labels, identity),
        },
    )
}

/// A constructor slot of a signature, asked to build a value.
pub open spec fn abstract_slot(labels: &Labels, name: Symbol) -> ErrorView {
    raised(
        ErrorKindView::shape_error(
            "`"@ + labels.text_of(name)
                + "` is an abstract constructor slot declared by TYPE; only a NEWTYPE-declared constructor can construct values"@,
        ),
    )
}

/// A family of several parameters, asked to build a value.
pub open spec fn too_many_params(labels: &Labels, name: Symbol, count: nat) -> ErrorView {
    raised(
        ErrorKindView::shape_error(
            "`"@ + labels.text_of(name) + "` takes "@ + decimal_text(count)
                + " type parameters; constructing values of a multi-parameter family is not yet supported"@,
        ),
    )
}

/// What building a value of a nominal type comes to.
pub open spec fn value_applied(
    types: &TypeRegistry,
    labels: &Labels,
    region: RegionView,
    identity: KType,
    expr: ExprId,
) -> (OutcomeView, RegionView) {
    let parts = region.parts(expr);
    let body = behind_head(parts);
    match types.node_of(identity) {
        Some(TypeNode::AbstractType { name, param_names, .. }) => if param_names@.len() > 0 {
            (failed(abstract_slot(labels, name)), region)
        } else {
            (failed(not_constructible(types, labels, identity)), region)
        },
        Some(TypeNode::SetMember { name, schema, .. }) => match schema {
            NodeSchema::NewType(_) => match literal_body(region, body) {
                Some(fields) => (
                    launched(
                        region,
                        literal_cells(fields),
                        CtorView::RecordNewType { identity, field_names: literal_names(fields) },
                    ),
                    cell_requests(region, literal_cells(fields)).1,
                ),
                None => single_construction(region, body, CtorView::NewType { identity }),
            },
            NodeSchema::TypeConstructor { schema: variants, param_names } => if variants@.len() == 0
                && param_names@.len() > 1 {
                (failed(too_many_params(labels, name, param_names@.len())), region)
            } else {
                match call_body(region, parts) {
                    Some(BodyView::Positional(args)) => if variants@.len() > 0 {
                        tagged_construction(region, identity, variants@, args)
                    } else {
                        single_construction(
                            region,
                            args,
                            CtorView::ApplyConstructor { constructor: identity },
                        )
                    },
                    Some(BodyView::Named(_)) => (body_shape_failed(expr, POSITIONAL_ONLY@), region),
                    None => (failed(no_match(expr)), region),
                }
            },
        },
        _ => (failed(not_constructible(types, labels, identity)), region),
    }
}

/// What applying a type comes to: a union picks a variant, a record of named types binds the
/// parameters of a constructor, and anything else builds a value.
pub open spec fn constructor_applied(
    before: &TypeRegistry,
    after: &TypeRegistry,
    labels: &Labels,
    region: RegionView,
    identity: KType,
    expr: ExprId,
    result: (OutcomeView, RegionView),
) -> bool {
    let body = behind_head(region.parts(expr));
    if before.node_of(identity) matches Some(TypeNode::Union { .. }) {
        after.nodes@ == before.nodes@ && result == union_applied(
            before,
            labels,
            region,
            identity,
            expr,
        )
    } else if before.constructor_params(identity) is Some && literal_body(region, body) is Some {
        named_type_args(
            before,
            after,
            labels,
            region,
            identity,
            before.constructor_params(identity)->0,
            literal_body(region, body)->0,
            result,
        )
    } else {
        after.nodes@ == before.nodes@ && result == value_applied(
            before,
            labels,
            region,
            identity,
            expr,
        )
    }
}

/// Copies a run of fields.
fn copy_fields(items: &Vec<Field>) -> (r: Vec<Field>)
    ensures
        r@ == items@,
{
    let mut r: Vec<Field> = Vec::new();
    let mut i: usize = 0;
    while i < items.len()
        invariant
            i <= items.len(),
            r@ == items@.take(i as int),
        decreases items.len() - i,
    {
        r.push(items[i]);
        assert(items@.take(i as int + 1) =~= items@.take(i as int).push(items@[i as int]));
        i = i + 1;
    }
    assert(items@.take(i as int) =~= items@);
    r
}

/// Builds a value of a nominal type.
fn construct_value(
    types: &TypeRegistry,
    labels: &Labels,
    region: &mut Region,
    identity: KType,
    expr: ExprId,
) -> (r: Outcome)
    ensures
        (r@, final(region)@) == value_applied(types, labels, old(region)@, identity, expr),
{
    let parts = region.parts_of(expr);
    let body = body_slots(&parts);
    match types.node(identity) {
        Some(TypeNode::AbstractType { name, param_names, .. }) => {
            if param_names.len() > 0 {
                let text = enclosed(
                    "`",
                    labels.render(*name).as_str(),
                    "` is an abstract constructor slot declared by TYPE; only a NEWTYPE-declared constructor can construct values",
                );
                fail(KError::new(KErrorKind::shape_error(text)))
            } else {
                fail(refuse_construction(types, labels, identity))
            }
        },
        Some(TypeNode::SetMember { name, schema, .. }) => match schema {
            NodeSchema::NewType(_) => match sole_literal(region, &body) {
                Some(fields) => dispatch_construct_record_newtype(region, identity, &fields),
                None => dispatch_construct_newtype(region, identity, &body),
            },
            NodeSchema::TypeConstructor { schema: variants, param_names } => {
                if variants.len() == 0 && param_names.len() > 1 {
                    let mut text = enclosed("`", labels.render(*name).as_str(), "` takes ");
                    text.append(decimal(param_names.len()).as_str());
                    text.append(
                        " type parameters; constructing values of a multi-parameter family is not yet supported",
                    );
                    return fail(KError::new(KErrorKind::shape_error(text)));
                }
                match extract_call_body(region, expr) {
                    Ok(CallBody::Positional(args)) => {
                        if variants.len() > 0 {
                            dispatch_construct_tagged(region, identity, copy_fields(variants), &args)
                        } else {
                            dispatch_construct_apply(region, identity, &args)
                        }
                    },
                    Ok(CallBody::Named(_)) => body_shape_err(expr, POSITIONAL_ONLY),
                    Err(e) => fail(e),
                }
            },
        },
        _ => fail(refuse_construction(types, labels, identity)),
    }
}

/// Refuses a type that no value is built of.
fn refuse_construction(types: &TypeRegistry, labels: &Labels, identity: KType) -> (r: KError)
    ensures
        r@ == not_constructible(types, labels, identity),
{
    KError::new(
        KErrorKind::TypeMismatch {
            arg: owned("verb"),
            expected: owned("constructible Type"),
            got: types.name(labels, identity),
        },
    )
}

/// Applies a type.
pub fn apply_constructor(
    types: &mut TypeRegistry,
    labels: &Labels,
    region: &mut Region,
    identity: KType,
    expr: ExprId,
) -> (r: Outcome)
    requires
        old(types).wf(),
    ensures
        final(types).wf(),
        final(types).extends(old(types)),
        constructor_applied(
            old(types),
            final(types),
            labels,
            old(region)@,
            identity,
            expr,
            (r@, final(region)@),
        ),
{
    if types.is_union(identity) {
        return apply_union_construct(types, labels, region, identity, expr);
    }
    // A record body on a constructor is a list of type arguments, never a value.
    if let Some(params) = types.constructor_param_names(identity) {
        let parts = region.parts_of(expr);
        let body = body_slots(&parts);
        if let Some(fields) = sole_literal(region, &body) {
            return apply_named_type_args(types, labels, region, identity, params, &fields);
        }
    }
    construct_value(types, labels, region, identity, expr)
}

/// What calling a committed callable comes to: every slot that has to be evaluated is staged, bare
/// names included.
pub open spec fn committed_call(
    ctx: &DecideCtx,
    types: &TypeRegistry,
    region: RegionView,
    expr: ExprId,
    picked: FnId,
) -> (OutcomeView, RegionView) {
    let parts = region.parts(expr);
    let meta = region.meta(expr);
    let wraps = wrap_slots(
        types,
        ctx.functions.signature(picked),
        parts,
        Seq::empty(),
        parts.len(),
    );
    let walked = walk(region, parts, meta, wraps, parts.len());
    if walked.slots.len() > 0 {
        staged_call(
            ctx,
            types,
            walked.region.with_node(with_holes(parts, walked.slots), meta),
            walked.region.next_node(),
            walked.slots,
            walked.requests,
            Some(picked),
        )
    } else {
        staged_call(ctx, types, region, expr, Seq::empty(), Seq::empty(), Some(picked))
    }
}

/// Stages every slot of a call whose callable is already settled.
pub fn install_eager_subs_track(
    ctx: &DecideCtx,
    types: &TypeRegistry,
    region: &mut Region,
    expr: ExprId,
    picked: FnId,
) -> (r: Outcome)
    ensures
        (r@, final(region)@) == committed_call(ctx, types, old(region)@, expr, picked),
{
    let parts = region.parts_of(expr);
    let parked: Vec<bool> = Vec::new();
    assert(parked@ =~= Seq::<bool>::empty());
    let wraps = classify_for_pick(types, &ctx.functions.signature_of(picked), &parts, &parked);
    match stage_all_eager_parts(region, expr, &wraps) {
        PartWalk::Unchanged => {
            let staged = StagedSubs::new();
            assert(staged.part_indices@ =~= Seq::<usize>::empty());
            assert(staged.requests@ =~= Seq::<DepRequest>::empty());
            install_eager_subs(ctx, types, region, expr, staged, Some(picked))
        },
        PartWalk::Respliced { expr: held, staged } => install_eager_subs(
            ctx,
            types,
            region,
            held,
            staged,
            Some(picked),
        ),
    }
}

/// What applying a function to its body comes to.
pub open spec fn function_applied(
    ctx: &DecideCtx,
    types: &TypeRegistry,
    region: RegionView,
    function: FnId,
    expr: ExprId,
    body: BodyView,
) -> (OutcomeView, RegionView) {
    match body {
        BodyView::Named(fields) => {
            let elements = ctx.functions.signature(function);
            match named_call_error(ctx.labels, elements, fields) {
                Some(e) => (failed(e), region),
                None => committed_call(
                    ctx,
                    types,
                    region.with_node(
                        named_slots(elements, fields),
                        synthesized(region.meta(expr)),
                    ),
                    region.next_node(),
                    function,
                ),
            }
        },
        BodyView::Positional(_) => (body_shape_failed(expr, NAMED_ONLY@), region),
    }
}

/// Calls a function with named arguments.
pub fn apply_function(
    ctx: &DecideCtx,
    types: &TypeRegistry,
    region: &mut Region,
    function: FnId,
    expr: ExprId,
    body: &CallBody,
) -> (r: Outcome)
    ensures
        (r@, final(region)@) == function_applied(
            ctx,
            types,
            old(region)@,
            function,
            expr,
            body@,
        ),
{
    match body {
        CallBody::Named(fields) => match reconstruct_positional(
            ctx.labels,
            &ctx.functions.signature_of(function),
            fields,
        ) {
            Ok(parts) => {
                let meta = synthesized_meta(region.meta_of(expr));
                let rebuilt = region.add_node(parts, meta);
                install_eager_subs_track(ctx, types, region, rebuilt, function)
            },
            Err(e) => fail(e),
        },
        CallBody::Positional(_) => body_shape_err(expr, NAMED_ONLY),
    }
}

/// What applying a resolved head comes to.
pub open spec fn applied(
    ctx: &DecideCtx,
    before: &TypeRegistry,
    after: &TypeRegistry,
    region: RegionView,
    callable: ResolvedCallable,
    expr: ExprId,
    result: (OutcomeView, RegionView),
) -> bool {
    match callable {
        ResolvedCallable::Constructor { identity } => constructor_applied(
            before,
            after,
            ctx.labels,
            region,
            identity,
            expr,
            result,
        ),
        ResolvedCallable::Function(function) => after.nodes@ == before.nodes@ && match call_body(
            region,
            region.parts(expr),
        ) {
            Some(body) => result == function_applied(ctx, before, region, function, expr, body),
            None => result == (failed(no_match(expr)), region),
        },
    }
}

/// Applies a resolved head to its body.
pub fn apply_callable(
    ctx: &DecideCtx,
    types: &mut TypeRegistry,
    region: &mut Region,
    callable: ResolvedCallable,
    expr: ExprId,
) -> (r: Outcome)
    requires
        old(types).wf(),
    ensures
        final(types).wf(),
        final(types).extends(old(types)),
        applied(
            ctx,
            old(types),
            final(types),
            old(region)@,
            callable,
            expr,
            (r@, final(region)@),
        ),
{
    match callable {
        ResolvedCallable::Constructor { identity } => apply_constructor(
            types,
            ctx.labels,
            region,
            identity,
            expr,
        ),
        ResolvedCallable::Function(function) => match extract_call_body(region, expr) {
            Ok(body) => apply_function(ctx, types, region, function, expr, &body),
            Err(e) => fail(e),
        },
    }
}

/// Whether no name is supplied twice.
pub open spec fn supplied_once(supplied: Seq<Field>) -> bool {
    forall|i: int, j: int|
        0 <= i < j < supplied.len() ==> (#[trigger] supplied[i]).name != (
        #[trigger] supplied[j]).name
}

proof fn supplied_type_is_supplied(supplied: Seq<Field>, name: Symbol)
    requires
        supplied_once(supplied),
    ensures
        forall|ktype: KType|
            supplied_type(supplied, name) == Some(ktype) <==> #[trigger] supplied.contains(
                Field { name, ktype },
            ),
    decreases supplied.len(),
{
    if supplied.len() > 0 {
        let rest = supplied.drop_last();
        assert forall|i: int, j: int| 0 <= i < j < rest.len() implies (#[trigger] rest[i]).name != (
        #[trigger] rest[j]).name by {
            assert(supplied[i].name != supplied[j].name);
        }
        supplied_type_is_supplied(rest, name);
        assert forall|ktype: KType|
            supplied_type(supplied, name) == Some(ktype) <==> #[trigger] supplied.contains(
                Field { name, ktype },
            ) by {
            let field = Field { name, ktype };
            if supplied.contains(field) {
                let k = choose|k: int| 0 <= k < supplied.len() && supplied[k] == field;
                if k < rest.len() {
                    assert(rest[k] == field);
                    assert(supplied[k].name != supplied[supplied.len() - 1].name);
                }
            }
            if rest.contains(field) {
                let k = choose|k: int| 0 <= k < rest.len() && rest[k] == field;
                assert(supplied[k] == field);
            }
            if supplied.last() == field {
                assert(supplied[supplied.len() - 1] == field);
            }
        }
    }
}

proof fn same_lookups_same_gaps(params: Seq<Symbol>, a: Seq<Field>, b: Seq<Field>)
    requires
        forall|name: Symbol| #[trigger] supplied_type(a, name) == supplied_type(b, name),
    ensures
        missing_params(params, a) == missing_params(params, b),
    decreases params.len(),
{
    if params.len() > 0 {
        same_lookups_same_gaps(params.drop_last(), a, b);
        assert(supplied_type(a, params.last()) == supplied_type(b, params.last()));
    }
}

/// The spellings of the supplied names that no parameter declares.
pub open spec fn unknown_texts(labels: &Labels, params: Seq<Symbol>, supplied: Seq<Field>) -> Seq<
    Seq<char>,
> {
    labels.texts_of(unknown_args(params, supplied))
}

proof fn unknown_text_behind(labels: &Labels, params: Seq<Symbol>, supplied: Seq<Field>, field: Field)
    ensures
        unknown_texts(labels, params, supplied.push(field)) == if params.contains(field.name) {
            unknown_texts(labels, params, supplied)
        } else {
            unknown_texts(labels, params, supplied).push(labels.text_of(field.name))
        },
{
    assert(supplied.push(field).drop_last() =~= supplied);
    assert(unknown_texts(labels, params, supplied.push(field)) =~= if params.contains(field.name) {
        unknown_texts(labels, params, supplied)
    } else {
        unknown_texts(labels, params, supplied).push(labels.text_of(field.name))
    });
}

proof fn unknown_texts_without(labels: &Labels, params: Seq<Symbol>, supplied: Seq<Field>, at: int)
    requires
        0 <= at < supplied.len(),
    ensures
        unknown_texts(labels, params, supplied).to_multiset() == if params.contains(
            supplied[at].name,
        ) {
            unknown_texts(labels, params, supplied.remove(at)).to_multiset()
        } else {
            unknown_texts(labels, params, supplied.remove(at)).to_multiset().insert(
                labels.text_of(supplied[at].name),
            )
        },
    decreases supplied.len(),
{
    broadcast use vstd::seq_lib::group_to_multiset_ensures;

    let rest = supplied.drop_last();
    let last = supplied.last();
    assert(supplied =~= rest.push(last));
    unknown_text_behind(labels, params, rest, last);
    if at == supplied.len() - 1 {
        assert(supplied.remove(at) =~= rest);
    } else {
        unknown_texts_without(labels, params, rest, at);
        assert(supplied.remove(at) =~= rest.remove(at).push(last));
        unknown_text_behind(labels, params, rest.remove(at), last);
        let own = labels.text_of(supplied[at].name);
        let behind = labels.text_of(last.name);
        let kept = unknown_texts(labels, params, rest.remove(at)).to_multiset();
        assert(kept.insert(own).insert(behind) =~= kept.insert(behind).insert(own));
    }
}

proof fn same_arguments_same_unknowns(
    labels: &Labels,
    params: Seq<Symbol>,
    a: Seq<Field>,
    b: Seq<Field>,
)
    requires
        a.to_multiset() == b.to_multiset(),
    ensures
        unknown_texts(labels, params, a).to_multiset() == unknown_texts(
            labels,
            params,
            b,
        ).to_multiset(),
    decreases a.len(),
{
    broadcast use vstd::seq_lib::group_to_multiset_ensures;

    assert(a.len() == a.to_multiset().len() && b.len() == b.to_multiset().len());
    if a.len() == 0 {
        assert(a =~= b);
    } else {
        let x = a.last();
        assert(a.contains(x));
        assert(b.to_multiset().count(x) > 0);
        assert(b.contains(x));
        let j = choose|j: int| 0 <= j < b.len() && b[j] == x;
        assert(a =~= a.drop_last().push(x));
        assert(a.drop_last().to_multiset() =~= a.to_multiset().remove(x));
        assert(b.remove(j).to_multiset() =~= b.to_multiset().remove(x));
        same_arguments_same_unknowns(labels, params, a.drop_last(), b.remove(j));
        unknown_text_behind(labels, params, a.drop_last(), x);
        unknown_texts_without(labels, params, b, j);
    }
}

/// Named type application is blind to the order of its arguments: the same arguments in another
/// order bind the same parameters to the same types, and fail with the same words.
pub proof fn named_application_is_order_blind(
    types: &TypeRegistry,
    labels: &Labels,
    identity: KType,
    params: Seq<Symbol>,
    a: Seq<Field>,
    b: Seq<Field>,
)
    requires
        supplied_once(a),
        a.to_multiset() == b.to_multiset(),
    ensures
        apply_args(types, labels, identity, params, a) == apply_args(
            types,
            labels,
            identity,
            params,
            b,
        ),
{
    broadcast use vstd::seq_lib::group_to_multiset_ensures;

    assert(supplied_once(b)) by {
        assert forall|i: int, j: int| 0 <= i < j < b.len() implies (#[trigger] b[i]).name != (
        #[trigger] b[j]).name by {
            assert(b.contains(b[i]) && b.contains(b[j]));
            assert(a.to_multiset().count(b[i]) > 0 && a.to_multiset().count(b[j]) > 0);
            assert(a.contains(b[i]) && a.contains(b[j]));
            let p = choose|p: int| 0 <= p < a.len() && a[p] == b[i];
            let q = choose|q: int| 0 <= q < a.len() && a[q] == b[j];
            if b[i].name == b[j].name {
                if p != q {
                    if p < q {
                        assert(a[p].name != a[q].name);
                    } else {
                        assert(a[q].name != a[p].name);
                    }
                }
                assert(b[i] == b[j]);
                assert(b.remove(j)[i] == b[i]);
                assert(b.remove(j).contains(b[i]));
                assert(b.remove(j).to_multiset().count(b[i]) > 0);
                assert(b.to_multiset().count(b[i]) >= 2);
                assert(a.remove(p).to_multiset().count(b[i]) > 0);
                assert(a.remove(p).contains(b[i]));
                let r = choose|r: int| 0 <= r < a.remove(p).len() && a.remove(p)[r] == b[i];
                if r < p {
                    assert(a[r] == b[i]);
                    assert(a[r].name != a[p].name);
                } else {
                    assert(a[r + 1] == b[i]);
                    assert(a[p].name != a[r + 1].name);
                }
            }
        }
    }
    assert forall|name: Symbol| #[trigger] supplied_type(a, name) == supplied_type(b, name) by {
        supplied_type_is_supplied(a, name);
        supplied_type_is_supplied(b, name);
        match supplied_type(a, name) {
            Some(ktype) => {
                let field = Field { name, ktype };
                assert(a.contains(field));
                assert(b.to_multiset().count(field) > 0);
                assert(b.contains(field));
            },
            None => {
                match supplied_type(b, name) {
                    Some(ktype) => {
                        let field = Field { name, ktype };
                        assert(b.contains(field));
                        assert(a.to_multiset().count(field) > 0);
                        assert(a.contains(field));
                    },
                    None => {},
                }
            },
        }
    }
    same_lookups_same_gaps(params, a, b);
    same_arguments_same_unknowns(labels, params, a, b);
    let ua = unknown_texts(labels, params, a);
    let ub = unknown_texts(labels, params, b);
    assert(ua.len() == ua.to_multiset().len() && ub.len() == ub.to_multiset().len());
    crate::text::ordering_forgets_the_order(ua, ub);
    assert(bound_args(params, a) =~= bound_args(params, b));
}

/// Named type application gives one type for every order of its arguments: where one application
/// has succeeded, the same arguments in another order come to the very same type, however far the
/// registry has grown between the two, and add nothing to it.
pub proof fn named_application_gives_one_type(
    before: &TypeRegistry,
    between: &TypeRegistry,
    later: &TypeRegistry,
    after: &TypeRegistry,
    labels: &Labels,
    identity: KType,
    params: Seq<Symbol>,
    a: Seq<Field>,
    b: Seq<Field>,
    first: OutcomeView,
    second: OutcomeView,
)
    requires
        later.wf(),
        later.extends(between),
        after.wf(),
        supplied_once(a),
        a.to_multiset() == b.to_multiset(),
        apply_args(before, labels, identity, params, a) is Ok,
        type_application(before, between, labels, identity, params, Ok(a), first),
        type_application(later, after, labels, identity, params, Ok(b), second),
    ensures
        first == second,
        after.nodes@ == later.nodes@,
{
    named_application_is_order_blind(before, labels, identity, params, a, b);
    let args = bound_args(params, a);
    assert(apply_args(later, labels, identity, params, b) == Ok::<Seq<Field>, ErrorView>(args));
    let x = choose|own: KType|
        {
            &&& #[trigger] applies(between, identity, args, own)
            &&& between.gained_application(before, identity, args, own)
            &&& first == finished(Carried::Type(own))
        };
    let y = choose|own: KType|
        {
            &&& #[trigger] applies(after, identity, args, own)
            &&& after.gained_application(later, identity, args, own)
            &&& second == finished(Carried::Type(own))
        };
    assert(forall|i: int|
        0 <= i < later.nodes@.len() && after.grown_by(later, y) ==> #[trigger] after.nodes@[i]
            == after.nodes@.drop_last()[i]);
    assert(applies(after, identity, args, x));
    applications_are_order_blind(*after, identity, args, args, x, y);
    if let KType::Node(at) = x {
        assert(is_application_node(later.nodes@[at as int], identity, args));
    }
}

} // verus!
