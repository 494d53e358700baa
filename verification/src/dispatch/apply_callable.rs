//! Applying a union: a lone variant tag names the variant, a group with a tag and a value builds
//! one. A value is checked against the schema of the whole union.

use crate::ast::{ExpressionPart, WorkingPart};
use crate::decide::apply_callable::{
    behind_head, body_shape_err, body_shape_failed, body_slots, call_body, extract_call_body,
    lone_tag, no_match, BodyView, CallBody, POSITIONAL_ONLY,
};
use crate::decide::constructors::{
    cell_requests, construct_tagged, launched, prepare_args, prepared_args, ValueCell,
};
use crate::error::{raised, ErrorKindView, ErrorView, KError, KErrorKind};
use crate::ktype::{Field, KType, NodeSchema, TypeNode, TypeRegistry};
use crate::matching::field_named;
use crate::outcome::{fail, failed, finished, CtorView, Outcome, OutcomeView};
use crate::region::{Region, RegionView};
use crate::symbol::{Labels, Symbol};
use crate::text::{enclosed, join, joined, ordered, sort};
use crate::value::{Carried, ExprId};
use vstd::prelude::*;
use vstd::string::StringExecFns;

verus! {

/// A schema with one more entry; an entry of the same name gives way to it.
pub open spec fn with_variant(schema: Seq<Field>, entry: Field) -> Seq<Field>
    decreases schema.len(),
{
    if schema.len() == 0 {
        seq![entry]
    } else if schema[0].name == entry.name {
        seq![entry] + schema.drop_first()
    } else {
        seq![schema[0]] + with_variant(schema.drop_first(), entry)
    }
}

/// The schema of a union: every wrapper among its members with its representation.
pub open spec fn variant_schema(types: &TypeRegistry, members: Seq<KType>) -> Seq<Field>
    decreases members.len(),
{
    if members.len() == 0 {
        Seq::empty()
    } else {
        let earlier = variant_schema(types, members.drop_last());
        match types.node_of(members.last()) {
            Some(TypeNode::SetMember { name, schema: NodeSchema::NewType(repr), .. }) => with_variant(
                earlier,
                Field { name, ktype: repr },
            ),
            _ => earlier,
        }
    }
}

proof fn variant_placed(schema: Seq<Field>, entry: Field, at: int)
    requires
        0 <= at <= schema.len(),
        forall|k: int| 0 <= k < at ==> (#[trigger] schema[k]).name != entry.name,
        at < schema.len() ==> schema[at].name == entry.name,
    ensures
        with_variant(schema, entry) == if at < schema.len() {
            schema.update(at, entry)
        } else {
            schema.push(entry)
        },
    decreases schema.len(),
{
    if schema.len() == 0 {
        assert(seq![entry] =~= schema.push(entry));
    } else if at == 0 {
        assert(seq![entry] + schema.drop_first() =~= schema.update(0, entry));
    } else {
        assert(schema[0].name != entry.name);
        assert forall|k: int| 0 <= k < at - 1 implies (#[trigger] schema.drop_first()[k]).name
            != entry.name by {
            assert(schema[k + 1].name != entry.name);
        }
        variant_placed(schema.drop_first(), entry, at - 1);
        if at < schema.len() {
            assert(seq![schema[0]] + schema.drop_first().update(at - 1, entry) =~= schema.update(
                at,
                entry,
            ));
        } else {
            assert(seq![schema[0]] + schema.drop_first().push(entry) =~= schema.push(entry));
        }
    }
}

/// Adds an entry to a schema.
fn put_variant(schema: &mut Vec<Field>, entry: Field)
    ensures
        final(schema)@ == with_variant(old(schema)@, entry),
{
    let mut at: usize = 0;
    while at < schema.len()
        invariant
            at <= schema.len(),
            schema@ == old(schema)@,
            forall|k: int| 0 <= k < at ==> (#[trigger] schema@[k]).name != entry.name,
        decreases schema.len() - at,
    {
        if schema[at].name == entry.name {
            proof {
                variant_placed(old(schema)@, entry, at as int);
            }
            schema.set(at, entry);
            return ;
        }
        at = at + 1;
    }
    proof {
        variant_placed(old(schema)@, entry, at as int);
    }
    schema.push(entry);
}

/// The schema of a union.
pub fn union_variant_schema(types: &TypeRegistry, members: &Vec<KType>) -> (r: Vec<Field>)
    ensures
        r@ == variant_schema(types, members@),
{
    let mut r: Vec<Field> = Vec::new();
    let mut i: usize = 0;
    proof {
        assert(members@.take(0) =~= Seq::<KType>::empty());
        assert(r@ =~= Seq::<Field>::empty());
    }
    while i < members.len()
        invariant
            i <= members.len(),
            r@ == variant_schema(types, members@.take(i as int)),
        decreases members.len() - i,
    {
        proof {
            assert(members@.take(i as int + 1).drop_last() =~= members@.take(i as int));
        }
        if let Some(TypeNode::SetMember { name, schema: NodeSchema::NewType(repr), .. }) =
            types.node(members[i]) {
            put_variant(&mut r, Field { name: *name, ktype: *repr });
        }
        i = i + 1;
    }
    assert(members@.take(i as int) =~= members@);
    r
}

/// The member of a union that is sealed under `name`.
pub fn union_member(types: &TypeRegistry, members: &Vec<KType>, name: Symbol) -> (r: Option<KType>)
    ensures
        r == types.first_named(members@, name),
{
    let mut i: usize = 0;
    proof {
        assert(members@.skip(0) =~= members@);
    }
    while i < members.len()
        invariant
            i <= members.len(),
            types.first_named(members@, name) == types.first_named(members@.skip(i as int), name),
        decreases members.len() - i,
    {
        proof {
            assert(members@.skip(i as int).drop_first() =~= members@.skip(i as int + 1));
        }
        if let Some(TypeNode::SetMember { name: own, .. }) = types.node(members[i]) {
            if *own == name {
                return Some(members[i]);
            }
        }
        i = i + 1;
    }
    None
}

/// The names of the sealed members, in order.
pub open spec fn sealed_names(types: &TypeRegistry, members: Seq<KType>) -> Seq<Symbol>
    decreases members.len(),
{
    if members.len() == 0 {
        Seq::empty()
    } else {
        let earlier = sealed_names(types, members.drop_last());
        match types.node_of(members.last()) {
            Some(TypeNode::SetMember { name, .. }) => earlier.push(name),
            _ => earlier,
        }
    }
}

/// The names of the sealed members of a union, sorted.
pub fn union_member_names(types: &TypeRegistry, labels: &Labels, members: &Vec<KType>) -> (r: String)
    ensures
        r@ == joined(ordered(labels.texts_of(sealed_names(types, members@))), ", "@),
{
    let mut names: Vec<Symbol> = Vec::new();
    let mut i: usize = 0;
    proof {
        assert(members@.take(0) =~= Seq::<KType>::empty());
    }
    while i < members.len()
        invariant
            i <= members.len(),
            names@ == sealed_names(types, members@.take(i as int)),
        decreases members.len() - i,
    {
        proof {
            assert(members@.take(i as int + 1).drop_last() =~= members@.take(i as int));
        }
        if let Some(TypeNode::SetMember { name, .. }) = types.node(members[i]) {
            names.push(*name);
        }
        i = i + 1;
    }
    assert(members@.take(i as int) =~= members@);
    join(&sort(labels.render_all(&names)), ", ")
}

/// A name that is none of the members of a union.
pub open spec fn unknown_variant(
    types: &TypeRegistry,
    labels: &Labels,
    members: Seq<KType>,
    name: Symbol,
) -> ErrorView {
    raised(
        ErrorKindView::shape_error(
            "`"@ + labels.text_of(name) + "` is not a variant of the union (variants: "@ + joined(
                ordered(labels.texts_of(sealed_names(types, members))),
                ", "@,
            ) + ")"@,
        ),
    )
}

/// Names a name that is none of the members of a union.
pub fn unknown_variant_error(
    types: &TypeRegistry,
    labels: &Labels,
    members: &Vec<KType>,
    name: Symbol,
) -> (r: KError)
    ensures
        r@ == unknown_variant(types, labels, members@, name),
{
    let mut text = enclosed(
        "`",
        labels.render(name).as_str(),
        "` is not a variant of the union (variants: ",
    );
    text.append(union_member_names(types, labels, members).as_str());
    text.append(")");
    KError::new(KErrorKind::shape_error(text))
}

/// What applying a union comes to.
pub open spec fn union_applied(
    types: &TypeRegistry,
    labels: &Labels,
    region: RegionView,
    members: Seq<KType>,
    expr: ExprId,
) -> (OutcomeView, RegionView) {
    let parts = region.parts(expr);
    match lone_tag(behind_head(parts)) {
        Some(name) => match types.first_named(members, name) {
            Some(member) => (finished(Carried::Type(member)), region),
            None => (failed(unknown_variant(types, labels, members, name)), region),
        },
        None => match call_body(region, parts) {
            Some(BodyView::Positional(args)) => match prepared_args(args) {
                Ok((tag, value)) => match types.first_named(members, tag) {
                    Some(member) => (
                        launched(
                            region,
                            seq![ValueCell::Part(value)],
                            CtorView::Tagged { schema: variant_schema(types, members), member, tag },
                        ),
                        cell_requests(region, seq![ValueCell::Part(value)]).1,
                    ),
                    None => (failed(unknown_variant(types, labels, members, tag)), region),
                },
                Err(e) => (failed(e), region),
            },
            Some(BodyView::Named(_)) => (body_shape_failed(expr, POSITIONAL_ONLY@), region),
            None => (failed(no_match(expr)), region),
        },
    }
}

/// Applies a union.
pub fn apply_union_construct(
    types: &TypeRegistry,
    labels: &Labels,
    region: &mut Region,
    members: &Vec<KType>,
    expr: ExprId,
) -> (r: Outcome)
    ensures
        (r@, final(region)@) == union_applied(types, labels, old(region)@, members@, expr),
{
    let parts = region.parts_of(expr);
    let body = body_slots(&parts);
    if body.len() == 1 {
        if let WorkingPart::Ast(ExpressionPart::Type(name)) = body[0].value {
            return match union_member(types, members, name) {
                Some(member) => Outcome::Done(Ok(Carried::Type(member))),
                None => fail(unknown_variant_error(types, labels, members, name)),
            };
        }
    }
    match extract_call_body(region, expr) {
        Ok(CallBody::Positional(args)) => match prepare_args(&args) {
            Ok((tag, value)) => match union_member(types, members, tag) {
                Some(member) => construct_tagged(
                    region,
                    member,
                    union_variant_schema(types, members),
                    tag,
                    value,
                ),
                None => fail(unknown_variant_error(types, labels, members, tag)),
            },
            Err(e) => fail(e),
        },
        Ok(CallBody::Named(_)) => body_shape_err(expr, POSITIONAL_ONLY),
        Err(e) => fail(e),
    }
}

/// No two members of a union share a name.
pub open spec fn distinct_members(types: &TypeRegistry, members: Seq<KType>) -> bool {
    forall|i: int, j: int, name: Symbol|
        0 <= i < j < members.len() ==> !(#[trigger] types.is_member_named(members[i], name)
            && #[trigger] types.is_member_named(members[j], name))
}

proof fn entry_read_back(schema: Seq<Field>, entry: Field, name: Symbol)
    ensures
        field_named(with_variant(schema, entry), name) == if name == entry.name {
            Some(entry.ktype)
        } else {
            field_named(schema, name)
        },
    decreases schema.len(),
{
    let after = with_variant(schema, entry);
    if schema.len() == 0 {
        assert(after.drop_first() =~= Seq::<Field>::empty());
    } else if schema[0].name == entry.name {
        assert(after.drop_first() =~= schema.drop_first());
    } else {
        entry_read_back(schema.drop_first(), entry, name);
        assert(after.drop_first() =~= with_variant(schema.drop_first(), entry));
    }
}

proof fn variant_behind(types: &TypeRegistry, members: Seq<KType>, name: Symbol)
    requires
        members.len() > 0,
    ensures
        types.first_variant(members, name) == match types.first_variant(members.drop_last(), name) {
            Some(found) => Some(found),
            None => if types.is_member_named(members.last(), name) && types.repr_of(
                members.last(),
            ) is Some {
                Some((members.last(), types.repr_of(members.last())->0))
            } else {
                None
            },
        },
    decreases members.len(),
{
    if members.len() == 1 {
        assert(members.drop_last() =~= Seq::<KType>::empty());
        assert(members.drop_first() =~= Seq::<KType>::empty());
    } else {
        variant_behind(types, members.drop_first(), name);
        assert(members.drop_first().drop_last() =~= members.drop_last().drop_first());
    }
}

proof fn variant_is_member(types: &TypeRegistry, members: Seq<KType>, name: Symbol)
    ensures
        types.first_variant(members, name) is Some ==> exists|i: int|
            0 <= i < members.len() && #[trigger] types.is_member_named(members[i], name),
    decreases members.len(),
{
    if members.len() > 0 {
        if types.is_member_named(members[0], name) && types.repr_of(members[0]) is Some {
        } else {
            variant_is_member(types, members.drop_first(), name);
            if types.first_variant(members, name) is Some {
                let i = choose|i: int|
                    0 <= i < members.drop_first().len() && #[trigger] types.is_member_named(
                        members.drop_first()[i],
                        name,
                    );
                assert(types.is_member_named(members[i + 1], name));
            }
        }
    }
}

/// The schema of a union whose members have names of their own asks of every variant exactly the
/// payload that the variant declares, and knows no other tag.
pub proof fn schema_asks_for_the_variants_payload(
    types: &TypeRegistry,
    members: Seq<KType>,
    tag: Symbol,
)
    requires
        distinct_members(types, members),
    ensures
        field_named(variant_schema(types, members), tag) == match types.first_variant(
            members,
            tag,
        ) {
            Some((_, payload)) => Some(payload),
            None => None,
        },
    decreases members.len(),
{
    if members.len() > 0 {
        let before = members.drop_last();
        assert forall|i: int, j: int, name: Symbol| 0 <= i < j < before.len() implies !(
        #[trigger] types.is_member_named(before[i], name) && #[trigger] types.is_member_named(
            before[j],
            name,
        )) by {
            assert(before[i] == members[i] && before[j] == members[j]);
        }
        schema_asks_for_the_variants_payload(types, before, tag);
        variant_behind(types, members, tag);
        variant_is_member(types, before, tag);
        if let Some(TypeNode::SetMember { name, schema: NodeSchema::NewType(repr), .. }) =
            types.node_of(members.last()) {
            entry_read_back(variant_schema(types, before), Field { name, ktype: repr }, tag);
            if name == tag && types.first_variant(before, tag) is Some {
                let i = choose|i: int|
                    0 <= i < before.len() && #[trigger] types.is_member_named(before[i], tag);
                assert(types.is_member_named(members[i], tag));
                assert(types.is_member_named(members[members.len() - 1], tag));
                assert(false);
            }
        }
    }
}

} // verus!
