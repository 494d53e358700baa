//! Laws of named arguments: a parameter takes the argument of its own name, wherever it was written.

use crate::ast::{ExpressionPart, WorkingPart};
use crate::error::ErrorKindView;
use crate::function::{
    argument_named, first_missing, first_unknown, has_parameter, named_call_error, named_slots,
    SignatureElement,
};
use crate::region::FieldPart;
use crate::symbol::{Labels, Symbol};
use vstd::prelude::*;

verus! {

/// Whether no two arguments go under one name.
pub open spec fn distinctly_named(fields: Seq<FieldPart>) -> bool {
    forall|i: int, j: int|
        0 <= i < j < fields.len() ==> (#[trigger] fields[i]).name != (#[trigger] fields[j]).name
}

proof fn the_one_under_a_name(fields: Seq<FieldPart>, k: int)
    requires
        0 <= k < fields.len(),
        distinctly_named(fields),
    ensures
        argument_named(fields, fields[k].name) == Some(fields[k].value),
    decreases fields.len(),
{
    if k > 0 {
        assert(fields[0].name != fields[k].name);
        let rest = fields.drop_first();
        assert forall|i: int, j: int| 0 <= i < j < rest.len() implies (#[trigger] rest[i]).name != (
        #[trigger] rest[j]).name by {
            assert(fields[i + 1].name != fields[j + 1].name);
        }
        the_one_under_a_name(rest, k - 1);
    }
}

proof fn found_under_its_name(fields: Seq<FieldPart>, name: Symbol)
    ensures
        match argument_named(fields, name) {
            Some(value) => exists|k: int|
                0 <= k < fields.len() && (#[trigger] fields[k]).name == name && fields[k].value
                    == value,
            None => forall|k: int|
                0 <= k < fields.len() ==> (#[trigger] fields[k]).name != name,
        },
    decreases fields.len(),
{
    if fields.len() > 0 {
        if fields[0].name == name {
        } else {
            let rest = fields.drop_first();
            found_under_its_name(rest, name);
            match argument_named(rest, name) {
                Some(value) => {
                    let k = choose|k: int|
                        0 <= k < rest.len() && (#[trigger] rest[k]).name == name && rest[k].value
                            == value;
                    assert(fields[k + 1].name == name && fields[k + 1].value == value);
                },
                None => {
                    assert forall|k: int| 0 <= k < fields.len() implies (
                    #[trigger] fields[k]).name != name by {
                        if k > 0 {
                            assert(fields[k] == rest[k - 1]);
                        }
                    }
                },
            }
        }
    }
}

proof fn nothing_missing_from(elements: Seq<SignatureElement>, fields: Seq<FieldPart>, from: int, i: int)
    requires
        0 <= from <= i < elements.len(),
        first_missing(elements, fields, from) is None,
    ensures
        elements[i] matches SignatureElement::Argument(arg) ==> argument_named(fields, arg.name)
            is Some,
    decreases i - from,
{
    if from < i {
        nothing_missing_from(elements, fields, from + 1, i);
    }
}

/// A call with distinctly named arguments that is accepted puts the value called `n` into the slot
/// of the parameter called `n`, and a keyword into the slot of a keyword: one slot per element of the
/// signature, each under no span of its own.
pub proof fn arguments_go_to_the_parameter_of_their_name(
    labels: &Labels,
    elements: Seq<SignatureElement>,
    fields: Seq<FieldPart>,
    i: int,
)
    requires
        named_call_error(labels, elements, fields) is None,
        distinctly_named(fields),
        0 <= i < elements.len(),
    ensures
        named_slots(elements, fields).len() == elements.len(),
        named_slots(elements, fields)[i].span is None,
        match elements[i] {
            SignatureElement::Keyword(symbol) => named_slots(elements, fields)[i].value
                == WorkingPart::Ast(ExpressionPart::Keyword(symbol)),
            SignatureElement::Argument(arg) => {
                &&& exists|k: int| 0 <= k < fields.len() && (#[trigger] fields[k]).name == arg.name
                &&& forall|k: int|
                    0 <= k < fields.len() && (#[trigger] fields[k]).name == arg.name
                        ==> named_slots(elements, fields)[i].value == WorkingPart::Ast(
                        fields[k].value,
                    )
            },
        },
{
    nothing_missing_from(elements, fields, 0, i);
    if let SignatureElement::Argument(arg) = elements[i] {
        found_under_its_name(fields, arg.name);
        assert forall|k: int|
            0 <= k < fields.len() && (#[trigger] fields[k]).name == arg.name implies named_slots(
            elements,
            fields,
        )[i].value == WorkingPart::Ast(fields[k].value) by {
            the_one_under_a_name(fields, k);
        }
    }
}

/// Every supplied value stands in a slot of the rebuilt call: that of the parameter it is named
/// after.
pub proof fn every_argument_is_passed_on(
    labels: &Labels,
    elements: Seq<SignatureElement>,
    fields: Seq<FieldPart>,
    k: int,
)
    requires
        named_call_error(labels, elements, fields) is None,
        distinctly_named(fields),
        0 <= k < fields.len(),
    ensures
        exists|i: int|
            {
                &&& 0 <= i < elements.len()
                &&& #[trigger] elements[i] matches SignatureElement::Argument(arg) && arg.name
                    == fields[k].name
                &&& named_slots(elements, fields)[i].value == WorkingPart::Ast(fields[k].value)
            },
{
    known_from(elements, fields, 0, k);
    let i = choose|i: int|
        0 <= i < elements.len() && (#[trigger] elements[i] matches SignatureElement::Argument(arg)
            && arg.name == fields[k].name);
    arguments_go_to_the_parameter_of_their_name(labels, elements, fields, i);
}

proof fn known_from(elements: Seq<SignatureElement>, fields: Seq<FieldPart>, from: int, k: int)
    requires
        0 <= from <= k < fields.len(),
        first_unknown(elements, fields, from) is None,
    ensures
        has_parameter(elements, fields[k].name),
    decreases k - from,
{
    if from < k {
        known_from(elements, fields, from + 1, k);
    }
}

/// The order in which distinctly named arguments are written changes nothing about the call.
pub proof fn named_calls_are_order_blind(
    labels: &Labels,
    elements: Seq<SignatureElement>,
    a: Seq<FieldPart>,
    b: Seq<FieldPart>,
)
    requires
        distinctly_named(a),
        a.to_multiset() == b.to_multiset(),
        named_call_error(labels, elements, a) is None,
    ensures
        named_call_error(labels, elements, b) is None,
        named_slots(elements, a) == named_slots(elements, b),
{
    broadcast use vstd::seq_lib::group_to_multiset_ensures;

    assert forall|name: Symbol| #[trigger] argument_named(a, name) == argument_named(b, name) by {
        found_under_its_name(a, name);
        found_under_its_name(b, name);
        if let Some(value) = argument_named(b, name) {
            let k = choose|k: int|
                0 <= k < b.len() && (#[trigger] b[k]).name == name && b[k].value == value;
            assert(b.contains(b[k]));
            assert(a.to_multiset().count(b[k]) > 0);
            assert(a.contains(b[k]));
            let j = choose|j: int| 0 <= j < a.len() && a[j] == b[k];
            the_one_under_a_name(a, j);
        } else if let Some(value) = argument_named(a, name) {
            let k = choose|k: int|
                0 <= k < a.len() && (#[trigger] a[k]).name == name && a[k].value == value;
            assert(a.contains(a[k]));
            assert(b.to_multiset().count(a[k]) > 0);
            assert(b.contains(a[k]));
            let j = choose|j: int| 0 <= j < b.len() && b[j] == a[k];
            assert(b[j].name == name);
        }
    }
    missing_alike(elements, a, b, 0);
    assert forall|k: int| 0 <= k < b.len() implies has_parameter(
        elements,
        (#[trigger] b[k]).name,
    ) by {
        assert(b.contains(b[k]));
        assert(a.to_multiset().count(b[k]) > 0);
        assert(a.contains(b[k]));
        let j = choose|j: int| 0 <= j < a.len() && a[j] == b[k];
        known_from(elements, a, 0, j);
    }
    all_known(elements, b, 0);
    assert(named_slots(elements, a) =~= named_slots(elements, b));
}

proof fn missing_alike(
    elements: Seq<SignatureElement>,
    a: Seq<FieldPart>,
    b: Seq<FieldPart>,
    from: int,
)
    requires
        forall|name: Symbol| #[trigger] argument_named(a, name) == argument_named(b, name),
        0 <= from <= elements.len(),
    ensures
        first_missing(elements, a, from) == first_missing(elements, b, from),
    decreases elements.len() - from,
{
    if from < elements.len() {
        missing_alike(elements, a, b, from + 1);
        if let SignatureElement::Argument(arg) = elements[from] {
            assert(argument_named(a, arg.name) == argument_named(b, arg.name));
        }
    }
}

proof fn all_known(elements: Seq<SignatureElement>, fields: Seq<FieldPart>, from: int)
    requires
        0 <= from <= fields.len(),
        forall|k: int|
            from <= k < fields.len() ==> has_parameter(elements, (#[trigger] fields[k]).name),
    ensures
        first_unknown(elements, fields, from) is None,
    decreases fields.len() - from,
{
    if from < fields.len() {
        assert(has_parameter(elements, fields[from].name));
        all_known(elements, fields, from + 1);
    }
}

/// A call with named arguments is refused exactly when some parameter has no argument of its name or
/// some argument no parameter of its name. The first parameter without one is named before any
/// argument without one.
pub proof fn named_calls_fit_their_signature(
    labels: &Labels,
    elements: Seq<SignatureElement>,
    fields: Seq<FieldPart>,
)
    ensures
        named_call_error(labels, elements, fields) is None <==> {
            &&& forall|i: int|
                0 <= i < elements.len() ==> !#[trigger] lacks(elements, fields, i)
            &&& forall|k: int| 0 <= k < fields.len() ==> !#[trigger] strays(elements, fields, k)
        },
        forall|i: int|
            #![trigger lacks(elements, fields, i)]
            0 <= i < elements.len() && lacks(elements, fields, i) && (forall|j: int|
                0 <= j < i ==> !#[trigger] lacks(elements, fields, j)) ==> (named_call_error(
                labels,
                elements,
                fields,
            ) matches Some(error) && error.frames.len() == 0 && error.kind
                == ErrorKindView::MissingArg(labels.text_of(elements[i]->Argument_0.name))),
{
    missing_is_first(elements, fields, 0);
    unknown_is_first(elements, fields, 0);
    assert forall|i: int|
        #![trigger lacks(elements, fields, i)]
        0 <= i < elements.len() && lacks(elements, fields, i) && (forall|j: int|
            0 <= j < i ==> !#[trigger] lacks(elements, fields, j)) implies (named_call_error(
        labels,
        elements,
        fields,
    ) matches Some(error) && error.frames.len() == 0 && error.kind == ErrorKindView::MissingArg(
        labels.text_of(elements[i]->Argument_0.name),
    )) by {
        let name = first_missing(elements, fields, 0)->0;
        let f = choose|f: int|
            {
                &&& 0 <= f < elements.len()
                &&& #[trigger] lacks(elements, fields, f)
                &&& elements[f]->Argument_0.name == name
                &&& forall|j: int| 0 <= j < f ==> !#[trigger] lacks(elements, fields, j)
            };
        if f < i {
            assert(!lacks(elements, fields, f));
        } else if i < f {
            assert(!lacks(elements, fields, i));
        }
    }
}

/// Whether element `i` of a signature is a parameter that no argument is named after.
pub open spec fn lacks(elements: Seq<SignatureElement>, fields: Seq<FieldPart>, i: int) -> bool {
    elements[i] matches SignatureElement::Argument(arg) && forall|k: int|
        0 <= k < fields.len() ==> (#[trigger] fields[k]).name != arg.name
}

/// Whether argument `k` is named after no parameter.
pub open spec fn strays(elements: Seq<SignatureElement>, fields: Seq<FieldPart>, k: int) -> bool {
    forall|i: int|
        0 <= i < elements.len() ==> !(#[trigger] elements[i] matches SignatureElement::Argument(arg)
            && arg.name == fields[k].name)
}

proof fn missing_is_first(elements: Seq<SignatureElement>, fields: Seq<FieldPart>, from: int)
    requires
        0 <= from <= elements.len(),
    ensures
        match first_missing(elements, fields, from) {
            Some(name) => exists|f: int|
                {
                    &&& from <= f < elements.len()
                    &&& #[trigger] lacks(elements, fields, f)
                    &&& elements[f]->Argument_0.name == name
                    &&& forall|j: int| from <= j < f ==> !#[trigger] lacks(elements, fields, j)
                },
            None => forall|j: int|
                from <= j < elements.len() ==> !#[trigger] lacks(elements, fields, j),
        },
    decreases elements.len() - from,
{
    if from < elements.len() {
        missing_is_first(elements, fields, from + 1);
        if let SignatureElement::Argument(arg) = elements[from] {
            found_under_its_name(fields, arg.name);
        }
        assert(lacks(elements, fields, from) || first_missing(elements, fields, from)
            == first_missing(elements, fields, from + 1));
    }
}

proof fn unknown_is_first(elements: Seq<SignatureElement>, fields: Seq<FieldPart>, from: int)
    requires
        0 <= from <= fields.len(),
    ensures
        first_unknown(elements, fields, from) is None <==> forall|k: int|
            from <= k < fields.len() ==> !#[trigger] strays(elements, fields, k),
    decreases fields.len() - from,
{
    if from < fields.len() {
        unknown_is_first(elements, fields, from + 1);
        assert(strays(elements, fields, from) == !has_parameter(elements, fields[from].name));
    }
}

} // verus!
