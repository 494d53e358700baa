//! Laws of signatures: when one is narrower than another.

use crate::function::{is_most_specific, more_specific, SignatureElement};
use crate::ktype::{KType, TypeNode, TypeRegistry};
use vstd::prelude::*;

verus! {

/// Whether the element at one place of a signature is no wider than that of another: the keyword is
/// the same, or the type is the same, stands under the top type, or is a member of a union.
pub open spec fn no_wider(types: &TypeRegistry, a: SignatureElement, b: SignatureElement) -> bool {
    match (a, b) {
        (SignatureElement::Keyword(x), SignatureElement::Keyword(y)) => x == y,
        (SignatureElement::Argument(x), SignatureElement::Argument(y)) => {
            ||| x.ktype == y.ktype
            ||| y.ktype == KType::Any
            ||| (types.node_of(y.ktype) matches Some(TypeNode::Union { members })
                && members@.contains(x.ktype))
        },
        _ => false,
    }
}

/// A signature is narrower than another exactly when they are equally long, it is no wider at any
/// place, and the other is wider at some place.
pub proof fn narrower_signatures_are_narrower_somewhere(
    types: &TypeRegistry,
    a: Seq<SignatureElement>,
    b: Seq<SignatureElement>,
)
    ensures
        more_specific(types, a, b) <==> {
            &&& a.len() == b.len()
            &&& forall|i: int| 0 <= i < a.len() ==> #[trigger] no_wider(types, a[i], b[i])
            &&& exists|i: int| 0 <= i < a.len() && !#[trigger] no_wider(types, b[i], a[i])
        },
{
    fitting_is_element_by_element(types, a, b);
    fitting_is_element_by_element(types, b, a);
}

proof fn fitting_is_element_by_element(types: &TypeRegistry, a: Seq<SignatureElement>, b: Seq<SignatureElement>)
    ensures
        crate::function::signature_fits(types, a, b) <==> a.len() == b.len() && forall|i: int|
            0 <= i < a.len() ==> #[trigger] no_wider(types, a[i], b[i]),
{
    assert forall|i: int| #[trigger]
        no_wider(types, a[i], b[i]) == crate::function::element_fits(types, a[i], b[i]) by {}
    if a.len() == b.len() && forall|i: int|
        0 <= i < a.len() ==> #[trigger] no_wider(types, a[i], b[i]) {
        assert forall|i: int| 0 <= i < a.len() implies #[trigger] crate::function::element_fits(
            types,
            a[i],
            b[i],
        ) by {
            assert(no_wider(types, a[i], b[i]));
        }
    }
    if crate::function::signature_fits(types, a, b) {
        assert forall|i: int| 0 <= i < a.len() implies #[trigger] no_wider(types, a[i], b[i]) by {
            assert(crate::function::element_fits(types, a[i], b[i]));
        }
    }
}

/// No signature is narrower than itself, and of two signatures at most one is narrower.
pub proof fn narrowness_is_strict(
    types: &TypeRegistry,
    a: Seq<SignatureElement>,
    b: Seq<SignatureElement>,
)
    ensures
        !more_specific(types, a, a),
        !(more_specific(types, a, b) && more_specific(types, b, a)),
{
}

/// Among several signatures at most one is narrower than all others.
pub proof fn the_narrowest_is_the_only_one(
    types: &TypeRegistry,
    sigs: Seq<Seq<SignatureElement>>,
    best: int,
    other: int,
)
    requires
        is_most_specific(types, sigs, best),
        is_most_specific(types, sigs, other),
    ensures
        best == other,
{
    if best != other {
        assert(more_specific(types, sigs[best], sigs[other]));
        assert(more_specific(types, sigs[other], sigs[best]));
    }
}

} // verus!
