//! Callables: their signatures, which of several is the most specific, and how the parts of a call
//! line up with the parameters.

use crate::ast::{ExpressionPart, Spanned, WorkingPart};
use crate::error::{raised, ErrorKindView, ErrorView, KError, KErrorKind};
use crate::ktype::{KType, ScopeId, TypeRegistry};
use crate::region::{FieldPart, Region, RegionView};
use crate::symbol::{Labels, Symbol};
use crate::text::enclosed;
use crate::value::{Carried, FnId};
use vstd::prelude::*;

verus! {

/// A parameter of a signature. `role` is the noun that a diagnostic names the slot by.
#[derive(Clone, Copy, PartialEq, Eq, Structural, Debug)]
pub struct Argument {
    pub name: Symbol,
    pub ktype: KType,
    pub role: Option<Symbol>,
}

/// One element of a signature.
#[derive(Clone, Copy, PartialEq, Eq, Structural, Debug)]
pub enum SignatureElement {
    Keyword(Symbol),
    Argument(Argument),
}

/// What runs when a callable is invoked.
#[derive(Clone, Copy, PartialEq, Eq, Structural, Debug)]
pub enum Body {
    /// A builtin, by its place in the builtin table.
    Builtin(usize),
    /// A body of user code.
    User,
}

/// A callable.
pub struct KFunction {
    pub elements: Vec<SignatureElement>,
    pub body: Body,
    pub captured: ScopeId,
}

/// The table of callables.
pub struct Functions {
    pub table: Vec<KFunction>,
}

impl Functions {
    /// The signature of a callable; one that the table does not hold has no elements.
    pub open spec fn signature(&self, function: FnId) -> Seq<SignatureElement> {
        if function.at < self.table@.len() {
            self.table@[function.at as int].elements@
        } else {
            Seq::empty()
        }
    }

    /// The body of a callable.
    pub open spec fn body(&self, function: FnId) -> Body {
        if function.at < self.table@.len() {
            self.table@[function.at as int].body
        } else {
            Body::User
        }
    }

    /// The scope that a callable was defined in.
    pub open spec fn captured(&self, function: FnId) -> ScopeId {
        if function.at < self.table@.len() {
            self.table@[function.at as int].captured
        } else {
            ScopeId { id: 0 }
        }
    }

    /// The signature of a callable, copied out.
    pub fn signature_of(&self, function: FnId) -> (r: Vec<SignatureElement>)
        ensures
            r@ == self.signature(function),
    {
        let mut r: Vec<SignatureElement> = Vec::new();
        if function.at < self.table.len() {
            let elements = &self.table[function.at].elements;
            let mut i: usize = 0;
            while i < elements.len()
                invariant
                    i <= elements.len(),
                    r@ == elements@.take(i as int),
                decreases elements.len() - i,
            {
                r.push(elements[i]);
                assert(elements@.take(i as int + 1) =~= elements@.take(i as int).push(
                    elements@[i as int],
                ));
                i = i + 1;
            }
            assert(elements@.take(i as int) =~= elements@);
        }
        r
    }

    /// The body of a callable.
    pub fn body_of(&self, function: FnId) -> (r: Body)
        ensures
            r == self.body(function),
    {
        if function.at < self.table.len() {
            self.table[function.at].body
        } else {
            Body::User
        }
    }

    /// The scope that a callable was defined in.
    pub fn captured_scope(&self, function: FnId) -> (r: ScopeId)
        ensures
            r == self.captured(function),
    {
        if function.at < self.table.len() {
            self.table[function.at].captured
        } else {
            ScopeId { id: 0 }
        }
    }
}

/// Whether every value that `a` takes is one that `b` takes, as far as the two show it.
pub open spec fn fits_within(types: &TypeRegistry, a: KType, b: KType) -> bool {
    a == b || b == KType::Any || types.has_member(b, a)
}

/// Whether the element of one signature is at least as narrow as that of another.
pub open spec fn element_fits(types: &TypeRegistry, a: SignatureElement, b: SignatureElement) -> bool {
    match (a, b) {
        (SignatureElement::Argument(x), SignatureElement::Argument(y)) => fits_within(
            types,
            x.ktype,
            y.ktype,
        ),
        (SignatureElement::Keyword(x), SignatureElement::Keyword(y)) => x == y,
        _ => false,
    }
}

/// Whether signature `a` is at least as narrow as `b` in every slot.
pub open spec fn signature_fits(
    types: &TypeRegistry,
    a: Seq<SignatureElement>,
    b: Seq<SignatureElement>,
) -> bool {
    a.len() == b.len() && forall|i: int|
        0 <= i < a.len() ==> #[trigger] element_fits(types, a[i], b[i])
}

/// Whether signature `a` is narrower than `b`.
pub open spec fn more_specific(
    types: &TypeRegistry,
    a: Seq<SignatureElement>,
    b: Seq<SignatureElement>,
) -> bool {
    signature_fits(types, a, b) && !signature_fits(types, b, a)
}

/// Whether the signature at `best` is narrower than every other one.
pub open spec fn is_most_specific(
    types: &TypeRegistry,
    sigs: Seq<Seq<SignatureElement>>,
    best: int,
) -> bool {
    0 <= best < sigs.len() && forall|j: int|
        0 <= j < sigs.len() && j != best ==> more_specific(
            types,
            sigs[best],
            #[trigger] sigs[j],
        )
}

fn type_fits(types: &TypeRegistry, a: KType, b: KType) -> (r: bool)
    ensures
        r == fits_within(types, a, b),
{
    a == b || matches!(b, KType::Any) || types.union_has_member(b, a)
}

fn elements_fit(types: &TypeRegistry, a: SignatureElement, b: SignatureElement) -> (r: bool)
    ensures
        r == element_fits(types, a, b),
{
    match (a, b) {
        (SignatureElement::Argument(x), SignatureElement::Argument(y)) => type_fits(
            types,
            x.ktype,
            y.ktype,
        ),
        (SignatureElement::Keyword(x), SignatureElement::Keyword(y)) => x == y,
        _ => false,
    }
}

fn all_fit(types: &TypeRegistry, a: &Vec<SignatureElement>, b: &Vec<SignatureElement>) -> (r: bool)
    ensures
        r == signature_fits(types, a@, b@),
{
    if a.len() != b.len() {
        return false;
    }
    let mut i: usize = 0;
    while i < a.len()
        invariant
            i <= a.len(),
            a.len() == b.len(),
            forall|k: int| 0 <= k < i ==> #[trigger] element_fits(types, a@[k], b@[k]),
        decreases a.len() - i,
    {
        if !elements_fit(types, a[i], b[i]) {
            return false;
        }
        i = i + 1;
    }
    true
}

/// The content of a run of signatures.
pub open spec fn signatures(sigs: Seq<Vec<SignatureElement>>) -> Seq<Seq<SignatureElement>> {
    sigs.map_values(|sig: Vec<SignatureElement>| sig@)
}

/// Whether the signature at `best` is narrower than every other one.
fn beats_all(types: &TypeRegistry, sigs: &Vec<Vec<SignatureElement>>, best: usize) -> (r: bool)
    requires
        best < sigs.len(),
    ensures
        r == is_most_specific(types, signatures(sigs@), best as int),
{
    let mut j: usize = 0;
    while j < sigs.len()
        invariant
            j <= sigs.len(),
            best < sigs.len(),
            forall|k: int|
                0 <= k < j && k != best ==> more_specific(
                    types,
                    signatures(sigs@)[best as int],
                    #[trigger] signatures(sigs@)[k],
                ),
        decreases sigs.len() - j,
    {
        if j != best && !(all_fit(types, &sigs[best], &sigs[j]) && !all_fit(
            types,
            &sigs[j],
            &sigs[best],
        )) {
            assert(!more_specific(
                types,
                signatures(sigs@)[best as int],
                signatures(sigs@)[j as int],
            ));
            return false;
        }
        j = j + 1;
    }
    true
}

/// The place of the signature that is narrower than every other one.
pub fn most_specific(types: &TypeRegistry, sigs: &Vec<Vec<SignatureElement>>) -> (r: Option<usize>)
    ensures
        match r {
            Some(best) => is_most_specific(types, signatures(sigs@), best as int),
            None => forall|i: int| !is_most_specific(types, signatures(sigs@), i),
        },
{
    let mut i: usize = 0;
    while i < sigs.len()
        invariant
            i <= sigs.len(),
            forall|k: int| 0 <= k < i ==> !is_most_specific(types, signatures(sigs@), k),
        decreases sigs.len() - i,
    {
        if beats_all(types, sigs, i) {
            return Some(i);
        }
        i = i + 1;
    }
    None
}

/// At most one signature is narrower than all others, so a pick never depends on the order in
/// which overloads were registered.
pub proof fn most_specific_is_unique(
    types: &TypeRegistry,
    sigs: Seq<Seq<SignatureElement>>,
    a: int,
    b: int,
)
    requires
        is_most_specific(types, sigs, a),
        is_most_specific(types, sigs, b),
    ensures
        a == b,
{
    if a != b {
        assert(more_specific(types, sigs[a], sigs[b]));
        assert(more_specific(types, sigs[b], sigs[a]));
    }
}

/// Whether a picked callable takes the value of the bare name in a slot: the slot is a parameter
/// that does not capture the name as a token, and the name has landed.
pub open spec fn wraps(
    types: &TypeRegistry,
    element: SignatureElement,
    part: WorkingPart,
    parked: bool,
) -> bool {
    match (element, part) {
        (SignatureElement::Argument(arg), WorkingPart::Ast(ast)) => part.bare_name() is Some
            && !parked && types.capturing_member(arg.ktype, ast) is None,
        _ => false,
    }
}

/// The slots of a call that take the value of a bare name, in order.
pub open spec fn wrap_slots(
    types: &TypeRegistry,
    elements: Seq<SignatureElement>,
    parts: Seq<Spanned>,
    parked: Seq<bool>,
    upto: nat,
) -> Seq<usize>
    decreases upto,
{
    if upto == 0 {
        Seq::empty()
    } else {
        let at = (upto - 1) as int;
        let earlier = wrap_slots(types, elements, parts, parked, at as nat);
        if at < elements.len() && wraps(
            types,
            elements[at],
            parts[at].value,
            at < parked.len() && parked[at],
        ) {
            earlier.push(at as usize)
        } else {
            earlier
        }
    }
}

/// The slots of a call that take the value of a bare name.
pub fn classify_for_pick(
    types: &TypeRegistry,
    elements: &Vec<SignatureElement>,
    parts: &Vec<Spanned>,
    parked: &Vec<bool>,
) -> (r: Vec<usize>)
    ensures
        r@ == wrap_slots(types, elements@, parts@, parked@, parts@.len()),
{
    let mut r: Vec<usize> = Vec::new();
    let mut i: usize = 0;
    while i < parts.len()
        invariant
            i <= parts.len(),
            r@ == wrap_slots(types, elements@, parts@, parked@, i as nat),
        decreases parts.len() - i,
    {
        let held = i < parked.len() && parked[i];
        if i < elements.len() {
            if let SignatureElement::Argument(arg) = elements[i] {
                if let WorkingPart::Ast(ast) = parts[i].value {
                    let is_name = matches!(
                        ast,
                        ExpressionPart::Identifier(_) | ExpressionPart::Type(_)
                    );
                    if is_name && !held && types.raw_capture_member(arg.ktype, ast).is_none() {
                        r.push(i);
                    }
                }
            }
        }
        i = i + 1;
    }
    r
}

/// The slots of a signature that are parameters, in order.
pub open spec fn part_slots(elements: Seq<SignatureElement>) -> Seq<usize>
    decreases elements.len(),
{
    if elements.len() == 0 {
        Seq::empty()
    } else {
        let earlier = part_slots(elements.drop_last());
        match elements.last() {
            SignatureElement::Argument(_) => earlier.push((elements.len() - 1) as usize),
            SignatureElement::Keyword(_) => earlier,
        }
    }
}

/// The slots of a signature that are parameters.
pub fn parameter_slots(elements: &Vec<SignatureElement>) -> (r: Vec<usize>)
    ensures
        r@ == part_slots(elements@),
{
    let mut r: Vec<usize> = Vec::new();
    let mut i: usize = 0;
    proof {
        assert(elements@.take(0) =~= Seq::<SignatureElement>::empty());
    }
    while i < elements.len()
        invariant
            i <= elements.len(),
            r@ == part_slots(elements@.take(i as int)),
        decreases elements.len() - i,
    {
        proof {
            assert(elements@.take(i as int + 1).drop_last() =~= elements@.take(i as int));
        }
        if let SignatureElement::Argument(_) = elements[i] {
            r.push(i);
        }
        i = i + 1;
    }
    assert(elements@.take(i as int) =~= elements@);
    r
}

/// The name of the type that a carried value shows.
pub open spec fn carried_text(
    types: &TypeRegistry,
    labels: &Labels,
    region: RegionView,
    carried: Carried,
) -> Seq<char> {
    match carried {
        Carried::Object(object) => types.name_text(labels, region.object(object).ktype()),
        Carried::Type(kt) => types.name_text(labels, kt),
        Carried::UnresolvedType(name) => labels.text_of(name),
    }
}

/// The name of the type that a carried value shows.
pub fn summarize(types: &TypeRegistry, labels: &Labels, region: &Region, carried: Carried) -> (r:
    String)
    ensures
        r@ == carried_text(types, labels, region@, carried),
{
    match carried {
        Carried::Object(object) => types.name(labels, region.object_type(object)),
        Carried::Type(kt) => types.name(labels, kt),
        Carried::UnresolvedType(name) => labels.render(name),
    }
}

/// What is wrong with one argument of a call: a resolved value that the parameter does not take.
pub open spec fn slot_error(
    types: &TypeRegistry,
    labels: &Labels,
    region: RegionView,
    element: SignatureElement,
    part: WorkingPart,
) -> Option<ErrorView> {
    match (element, part) {
        (
            SignatureElement::Argument(arg),
            WorkingPart::Spliced { cell, .. },
        ) => if types.accepts(region, arg.ktype, cell) {
            None
        } else {
            Some(
                raised(
                    ErrorKindView::TypeMismatch {
                        arg: labels.text_of(arg.name),
                        expected: types.name_text(labels, arg.ktype),
                        got: carried_text(types, labels, region, cell),
                    },
                ),
            )
        },
        _ => None,
    }
}

/// What is wrong with the arguments of a call, in slot order.
pub open spec fn call_error(
    types: &TypeRegistry,
    labels: &Labels,
    region: RegionView,
    elements: Seq<SignatureElement>,
    parts: Seq<Spanned>,
) -> Option<ErrorView> {
    if elements.len() != parts.len() {
        Some(
            raised(
                ErrorKindView::ArityMismatch {
                    expected: elements.len() as usize,
                    got: parts.len() as usize,
                },
            ),
        )
    } else {
        first_slot_error(types, labels, region, elements, parts, 0)
    }
}

/// The error of the first slot from `from` on that has one.
pub open spec fn first_slot_error(
    types: &TypeRegistry,
    labels: &Labels,
    region: RegionView,
    elements: Seq<SignatureElement>,
    parts: Seq<Spanned>,
    from: int,
) -> Option<ErrorView>
    decreases elements.len() - from,
{
    if from < 0 || from >= elements.len() {
        None
    } else {
        match slot_error(types, labels, region, elements[from], parts[from].value) {
            Some(error) => Some(error),
            None => first_slot_error(types, labels, region, elements, parts, from + 1),
        }
    }
}

/// Checks every resolved argument of a call against its parameter.
pub fn validate_call_args(
    types: &TypeRegistry,
    labels: &Labels,
    region: &Region,
    elements: &Vec<SignatureElement>,
    parts: &Vec<Spanned>,
) -> (r: Result<(), KError>)
    ensures
        match r {
            Ok(_) => call_error(types, labels, region@, elements@, parts@) is None,
            Err(e) => call_error(types, labels, region@, elements@, parts@) == Some(e@),
        },
{
    if elements.len() != parts.len() {
        return Err(
            KError::new(
                KErrorKind::ArityMismatch { expected: elements.len(), got: parts.len() },
            ),
        );
    }
    let mut i: usize = 0;
    while i < elements.len()
        invariant
            i <= elements.len(),
            elements.len() == parts.len(),
            first_slot_error(types, labels, region@, elements@, parts@, 0) == first_slot_error(
                types,
                labels,
                region@,
                elements@,
                parts@,
                i as int,
            ),
        decreases elements.len() - i,
    {
        if let SignatureElement::Argument(arg) = elements[i] {
            if let WorkingPart::Spliced { cell, .. } = parts[i].value {
                if !types.accepts_carried(region, arg.ktype, cell) {
                    return Err(
                        KError::new(
                            KErrorKind::TypeMismatch {
                                arg: labels.render(arg.name),
                                expected: types.name(labels, arg.ktype),
                                got: summarize(types, labels, region, cell),
                            },
                        ),
                    );
                }
            }
        }
        i = i + 1;
    }
    Ok(())
}

/// The value of the first field under `name`.
pub open spec fn argument_named(fields: Seq<FieldPart>, name: Symbol) -> Option<ExpressionPart>
    decreases fields.len(),
{
    if fields.len() == 0 {
        None
    } else if fields[0].name == name {
        Some(fields[0].value)
    } else {
        argument_named(fields.drop_first(), name)
    }
}

/// The value of the first field under `name`.
pub fn take_argument(fields: &Vec<FieldPart>, name: Symbol) -> (r: Option<ExpressionPart>)
    ensures
        r == argument_named(fields@, name),
{
    let mut i: usize = 0;
    proof {
        assert(fields@.skip(0) =~= fields@);
    }
    while i < fields.len()
        invariant
            i <= fields.len(),
            argument_named(fields@, name) == argument_named(fields@.skip(i as int), name),
        decreases fields.len() - i,
    {
        proof {
            assert(fields@.skip(i as int).drop_first() =~= fields@.skip(i as int + 1));
        }
        if fields[i].name == name {
            return Some(fields[i].value);
        }
        i = i + 1;
    }
    None
}

/// Whether a signature has a parameter called `name`.
pub open spec fn has_parameter(elements: Seq<SignatureElement>, name: Symbol) -> bool {
    exists|i: int|
        0 <= i < elements.len() && (#[trigger] elements[i] matches SignatureElement::Argument(arg)
            && arg.name == name)
}

/// Whether a signature has a parameter called `name`.
fn declares_parameter(elements: &Vec<SignatureElement>, name: Symbol) -> (r: bool)
    ensures
        r == has_parameter(elements@, name),
{
    let mut i: usize = 0;
    while i < elements.len()
        invariant
            i <= elements.len(),
            forall|k: int|
                0 <= k < i ==> !(#[trigger] elements@[k] matches SignatureElement::Argument(arg)
                    && arg.name == name),
        decreases elements.len() - i,
    {
        if let SignatureElement::Argument(arg) = elements[i] {
            if arg.name == name {
                assert(elements@[i as int] matches SignatureElement::Argument(arg) && arg.name
                    == name);
                return true;
            }
        }
        i = i + 1;
    }
    false
}

/// The slot that a signature element becomes in a call with named arguments.
pub open spec fn named_slot(element: SignatureElement, fields: Seq<FieldPart>) -> Option<Spanned> {
    match element {
        SignatureElement::Keyword(symbol) => Some(
            crate::ast::bare_slot(WorkingPart::Ast(ExpressionPart::Keyword(symbol))),
        ),
        SignatureElement::Argument(arg) => match argument_named(fields, arg.name) {
            Some(part) => Some(crate::ast::bare_slot(WorkingPart::Ast(part))),
            None => None,
        },
    }
}

/// The first parameter from `from` on that no argument supplies.
pub open spec fn first_missing(
    elements: Seq<SignatureElement>,
    fields: Seq<FieldPart>,
    from: int,
) -> Option<Symbol>
    decreases elements.len() - from,
{
    if from < 0 || from >= elements.len() {
        None
    } else {
        match elements[from] {
            SignatureElement::Argument(arg) => if argument_named(fields, arg.name) is None {
                Some(arg.name)
            } else {
                first_missing(elements, fields, from + 1)
            },
            SignatureElement::Keyword(_) => first_missing(elements, fields, from + 1),
        }
    }
}

/// The first argument from `from` on that no parameter declares.
pub open spec fn first_unknown(
    elements: Seq<SignatureElement>,
    fields: Seq<FieldPart>,
    from: int,
) -> Option<Symbol>
    decreases fields.len() - from,
{
    if from < 0 || from >= fields.len() {
        None
    } else if !has_parameter(elements, fields[from].name) {
        Some(fields[from].name)
    } else {
        first_unknown(elements, fields, from + 1)
    }
}

/// The error of a call with named arguments: a missing one is reported before a stray one.
pub open spec fn named_call_error(
    labels: &Labels,
    elements: Seq<SignatureElement>,
    fields: Seq<FieldPart>,
) -> Option<ErrorView> {
    match first_missing(elements, fields, 0) {
        Some(name) => Some(raised(ErrorKindView::MissingArg(labels.text_of(name)))),
        None => match first_unknown(elements, fields, 0) {
            Some(name) => Some(
                raised(
                    ErrorKindView::shape_error(
                        "unknown argument `"@ + labels.text_of(name) + "`"@,
                    ),
                ),
            ),
            None => None,
        },
    }
}

/// The slots of a call with named arguments, in the order of the signature.
pub open spec fn named_slots(elements: Seq<SignatureElement>, fields: Seq<FieldPart>) -> Seq<
    Spanned,
> {
    elements.map_values(|element: SignatureElement| named_slot(element, fields)->0)
}

/// Lays named arguments out in the order of the signature.
pub fn reconstruct_positional(
    labels: &Labels,
    elements: &Vec<SignatureElement>,
    fields: &Vec<FieldPart>,
) -> (r: Result<Vec<Spanned>, KError>)
    ensures
        match r {
            Ok(parts) => named_call_error(labels, elements@, fields@) is None && parts@
                == named_slots(elements@, fields@),
            Err(e) => named_call_error(labels, elements@, fields@) == Some(e@),
        },
{
    let mut parts: Vec<Spanned> = Vec::new();
    let mut i: usize = 0;
    while i < elements.len()
        invariant
            i <= elements.len(),
            parts@.len() == i,
            first_missing(elements@, fields@, 0) == first_missing(elements@, fields@, i as int),
            forall|k: int|
                0 <= k < i ==> named_slot(#[trigger] elements@[k], fields@) == Some(parts@[k]),
        decreases elements.len() - i,
    {
        match elements[i] {
            SignatureElement::Keyword(symbol) => {
                parts.push(crate::ast::bare(WorkingPart::Ast(ExpressionPart::Keyword(symbol))));
            },
            SignatureElement::Argument(arg) => match take_argument(fields, arg.name) {
                Some(part) => {
                    parts.push(crate::ast::bare(WorkingPart::Ast(part)));
                },
                None => {
                    return Err(KError::new(KErrorKind::MissingArg(labels.render(arg.name))));
                },
            },
        }
        i = i + 1;
    }
    let mut j: usize = 0;
    while j < fields.len()
        invariant
            j <= fields.len(),
            parts@.len() == elements@.len(),
            forall|k: int|
                0 <= k < elements@.len() ==> named_slot(#[trigger] elements@[k], fields@) == Some(
                    parts@[k],
                ),
            first_missing(elements@, fields@, 0) is None,
            first_unknown(elements@, fields@, 0) == first_unknown(elements@, fields@, j as int),
        decreases fields.len() - j,
    {
        if !declares_parameter(elements, fields[j].name) {
            let name = labels.render(fields[j].name);
            return Err(
                KError::new(
                    KErrorKind::shape_error(enclosed("unknown argument `", name.as_str(), "`")),
                ),
            );
        }
        j = j + 1;
    }
    assert(parts@ =~= named_slots(elements@, fields@));
    Ok(parts)
}

} // verus!
