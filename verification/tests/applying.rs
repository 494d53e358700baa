//! Type application and construction, run from source text through the decisions of every slot.

use koan_dispatch::ast::{ExpressionPart, KLiteral, KeyElement, Spanned, WorkingPart};
use koan_dispatch::decide::classify::{
    classify_dispatch, resume_decision, run_finish, settle_results,
};
use koan_dispatch::decide::resolve_dispatch::EntryCounter;
use koan_dispatch::decide::DecideCtx;
use koan_dispatch::dispatch::apply_callable::apply_union_construct;
use koan_dispatch::error::{KError, KErrorKind, Message, Subject};
use koan_dispatch::function::{Argument, Body, Functions, KFunction, SignatureElement};
use koan_dispatch::ktype::{
    Field, KKind, KType, NodeSchema, ScopeId, TypeNode, TypeRegistry,
};
use koan_dispatch::outcome::{
    Continuation, Dep, DepRequest, Outcome, ParkDeps, Work,
};
use koan_dispatch::region::{FieldPart, NodeMeta, Region};
use koan_dispatch::scope::{
    OverloadEntry, OverloadState, Scope, ScopeLevel, TypeEntry, TypeState, ValueEntry, ValueState,
};
use koan_dispatch::symbol::{Labels, Symbol};
use koan_dispatch::value::{Carried, ExprId, FnId, KObject, ObjId};

const ROOT: ScopeId = ScopeId { id: 0 };

/// A run with the builtin types, the two-parameter `Result` family and `LIST OF`.
struct Run {
    types: TypeRegistry,
    labels: Labels,
    region: Region,
    scope: Scope,
    functions: Functions,
    counter: EntryCounter,
}

fn level(id: ScopeId) -> ScopeLevel {
    ScopeLevel {
        id,
        values: Vec::new(),
        types: Vec::new(),
        overloads: Vec::new(),
        operators: Vec::new(),
        window: None,
    }
}

impl Run {
    fn new() -> Run {
        let mut run = Run {
            types: TypeRegistry::new(),
            labels: Labels::new(),
            region: Region::new(),
            scope: Scope { levels: vec![level(ROOT)] },
            functions: Functions { table: Vec::new() },
            counter: EntryCounter { entries: 0 },
        };
        for (name, kt) in [
            ("Number", KType::Number),
            ("Str", KType::Str),
            ("Bool", KType::Bool),
            ("Null", KType::Null),
            ("Any", KType::Any),
        ] {
            run.bind_type(name, kt);
        }
        let ok = run.symbol("Ok");
        let error = run.symbol("Error");
        let schema = NodeSchema::TypeConstructor {
            schema: vec![
                Field { name: ok, ktype: KType::Any },
                Field { name: error, ktype: KType::Any },
            ],
            param_names: vec![ok, error],
        };
        run.declare("Result", schema);
        let list = run.symbol("LIST");
        let of = run.symbol("OF");
        let elem = run.symbol("elem");
        run.functions.table.push(KFunction {
            elements: vec![
                SignatureElement::Keyword(list),
                SignatureElement::Keyword(of),
                SignatureElement::Argument(Argument {
                    name: elem,
                    ktype: KType::OfKind(KKind::ProperType),
                    role: None,
                }),
            ],
            body: Body::Builtin(0),
            captured: ROOT,
        });
        run.scope.levels[0].overloads.push(OverloadEntry {
            key: vec![KeyElement::Keyword(list), KeyElement::Keyword(of), KeyElement::Slot],
            index: 0,
            builtin: true,
            state: OverloadState::Bound(FnId { at: 0 }),
        });
        run
    }

    fn symbol(&mut self, text: &str) -> Symbol {
        self.labels.intern(text)
    }

    fn bind_type(&mut self, name: &str, kt: KType) {
        let name = self.symbol(name);
        self.scope.levels[0].types.push(TypeEntry { name, index: 0, state: TypeState::Bound(kt) });
    }

    fn bind_value(&mut self, name: &str, object: KObject) {
        let name = self.symbol(name);
        let at = self.region.add_object(object, false);
        self.scope.levels[0].values.push(ValueEntry {
            name,
            index: 0,
            state: ValueState::Bound(Carried::Object(at)),
        });
    }

    fn declare(&mut self, name: &str, schema: NodeSchema) -> KType {
        let symbol = self.symbol(name);
        let kt = self.types.declare(ROOT, symbol, schema);
        self.bind_type(name, kt);
        kt
    }

    /// `NEWTYPE (A B AS Name)`
    fn family(&mut self, name: &str, params: &[&str]) -> KType {
        let param_names = params.iter().map(|p| self.symbol(p)).collect();
        self.declare(name, NodeSchema::TypeConstructor { schema: Vec::new(), param_names })
    }

    /// `UNION Name = (Variant :Payload …)`
    fn union(&mut self, name: &str, variants: &[(&str, KType)]) -> Vec<KType> {
        let mut members = Vec::new();
        for (variant, payload) in variants {
            let symbol = self.symbol(variant);
            members.push(self.types.declare(ROOT, symbol, NodeSchema::NewType(*payload)));
        }
        let kt = self.types.union_of(members.clone());
        self.bind_type(name, kt);
        members
    }

    fn node(&mut self, parts: Vec<ExpressionPart>) -> ExprId {
        let slots = parts
            .into_iter()
            .map(|part| Spanned { value: WorkingPart::Ast(part), span: None })
            .collect();
        self.region.add_node(slots, NodeMeta { span: None, plan: None, raw: None })
    }

    /// Reads one expression.
    fn parse_one(&mut self, source: &str) -> ExprId {
        let chars: Vec<char> = source.chars().collect();
        let mut at = 0;
        let parts = self.parse_parts(&chars, &mut at);
        assert_eq!(at, chars.len(), "the whole source is read");
        self.node(parts)
    }

    fn parse_parts(&mut self, chars: &[char], at: &mut usize) -> Vec<ExpressionPart> {
        let mut parts = Vec::new();
        loop {
            while *at < chars.len() && chars[*at] == ' ' {
                *at += 1;
            }
            if *at >= chars.len() || matches!(chars[*at], ')' | '}' | ',') {
                return parts;
            }
            let part = self.parse_part(chars, at);
            parts.push(part);
        }
    }

    fn parse_part(&mut self, chars: &[char], at: &mut usize) -> ExpressionPart {
        match chars[*at] {
            ':' => {
                *at += 2;
                let parts = self.parse_parts(chars, at);
                *at += 1;
                ExpressionPart::SigiledTypeExpr(self.node(parts))
            }
            '(' => {
                *at += 1;
                let parts = self.parse_parts(chars, at);
                *at += 1;
                ExpressionPart::Expression(self.node(parts))
            }
            '{' => {
                *at += 1;
                let mut fields = Vec::new();
                while chars[*at] != '}' {
                    let parts = self.parse_parts(chars, at);
                    // `name = value`
                    assert_eq!(parts.len(), 3, "a field is a name, `=` and a value");
                    let name = match parts[0] {
                        ExpressionPart::Type(name) | ExpressionPart::Identifier(name) => name,
                        _ => panic!("a field starts with its name"),
                    };
                    fields.push(FieldPart { name, value: parts[2] });
                    if chars[*at] == ',' {
                        *at += 1;
                    }
                }
                *at += 1;
                ExpressionPart::RecordLiteral(self.region.add_record(fields))
            }
            '"' => {
                *at += 1;
                let mut text = String::new();
                while chars[*at] != '"' {
                    text.push(chars[*at]);
                    *at += 1;
                }
                *at += 1;
                ExpressionPart::Literal(KLiteral::Str(self.symbol(&text)))
            }
            _ => {
                let mut word = String::new();
                while *at < chars.len() && !matches!(chars[*at], ' ' | ')' | '}' | ',') {
                    word.push(chars[*at]);
                    *at += 1;
                }
                self.word(&word)
            }
        }
    }

    fn word(&mut self, word: &str) -> ExpressionPart {
        if let Ok(number) = word.parse::<f64>() {
            return ExpressionPart::Literal(KLiteral::Number(number.to_bits()));
        }
        if let Some((union, variant)) = word.split_once('.') {
            let parts = vec![self.word(union), self.word(variant)];
            return ExpressionPart::Expression(self.node(parts));
        }
        let symbol = self.symbol(word);
        let first = word.chars().next().expect("a word is not empty");
        if word == "=" || word.chars().all(|c| c.is_uppercase()) {
            ExpressionPart::Keyword(symbol)
        } else if first.is_uppercase() {
            ExpressionPart::Type(symbol)
        } else {
            ExpressionPart::Identifier(symbol)
        }
    }

    fn first_turn(&mut self, expr: ExprId) -> Outcome {
        let ctx = DecideCtx {
            scope: &self.scope,
            chain: None,
            obligation: None,
            labels: &self.labels,
            functions: &self.functions,
            diagnosis: None,
        };
        classify_dispatch(&ctx, &mut self.types, &mut self.region, expr, &mut self.counter)
    }

    fn wake(&mut self, continuation: Continuation, values: Vec<Carried>) -> Outcome {
        let ctx = DecideCtx {
            scope: &self.scope,
            chain: None,
            obligation: None,
            labels: &self.labels,
            functions: &self.functions,
            diagnosis: None,
        };
        match continuation {
            Continuation::Finish(finish) => {
                run_finish(&ctx, &mut self.types, &mut self.region, &finish, &values)
            }
            Continuation::Resume(resume) => {
                resume_decision(&ctx, &mut self.types, &mut self.region, resume, &mut self.counter)
            }
            Continuation::Catch { .. } => panic!("nothing is caught here"),
        }
    }

    /// `LIST OF`, the one builtin.
    fn builtin(&mut self, expr: ExprId) -> Carried {
        let element = match self.region.parts_of(expr)[2].value {
            WorkingPart::Spliced { cell: Carried::Type(kt), .. } => kt,
            other => panic!("the element type is resolved, got {other:?}"),
        };
        Carried::Type(self.types.list(element))
    }

    /// Runs an expression to its end.
    fn run_to_end(&mut self, expr: ExprId) -> Result<Carried, KError> {
        let mut outcome = self.first_turn(expr);
        loop {
            outcome = match outcome {
                Outcome::Done(result) => return result,
                Outcome::Continue { work: Work::Dispatch(next), .. } => self.first_turn(next),
                Outcome::Continue { work: Work::Builtin { expr, .. }, .. } => {
                    return Ok(self.builtin(expr));
                }
                Outcome::Park { deps: ParkDeps::List(deps), continuation, error_frame } => {
                    let results: Vec<Result<Carried, KError>> = deps
                        .into_iter()
                        .map(|dep| match dep {
                            Dep::Request(DepRequest::Dispatch { expr, .. }) => {
                                self.run_to_end(expr)
                            }
                            _ => panic!("only sub-dispatches are waited for here"),
                        })
                        .collect();
                    match settle_results(&results, error_frame) {
                        Ok(values) => self.wake(continuation, values),
                        Err(e) => return Err(e),
                    }
                }
                _ => panic!("the run ends in a result"),
            };
        }
    }

    fn run_one(&mut self, source: &str) -> Result<Carried, KError> {
        let expr = self.parse_one(source);
        self.run_to_end(expr)
    }

    fn run_one_type(&mut self, source: &str) -> KType {
        match self.run_one(source) {
            Ok(Carried::Type(kt)) => kt,
            _ => panic!("expected a type"),
        }
    }

    fn run_one_object(&mut self, source: &str) -> ObjId {
        match self.run_one(source) {
            Ok(Carried::Object(object)) => object,
            _ => panic!("expected a value"),
        }
    }

    fn run_one_err(&mut self, source: &str) -> KError {
        match self.run_one(source) {
            Err(e) => e,
            Ok(_) => panic!("expected an error"),
        }
    }

    /// The names and types of an application, in the order it carries them.
    fn applied_args(&self, kt: KType) -> Vec<(String, KType)> {
        match self.types.node(kt) {
            Some(TypeNode::ConstructorApply { arguments, .. }) => {
                arguments.iter().map(|f| (self.labels.render(f.name), f.ktype)).collect()
            }
            _ => panic!("expected a ConstructorApply, got {}", self.types.name(&self.labels, kt)),
        }
    }
}

fn number(n: f64) -> KObject {
    KObject::Number(n.to_bits())
}

/// The builtin two-parameter family binds its parameters in declared order.
#[test]
fn result_applies_named_type_arguments() {
    let mut run = Run::new();
    let applied = run.run_one_type(":(Result {Ok = Number, Error = Str})");
    assert_eq!(
        run.applied_args(applied),
        vec![("Ok".to_string(), KType::Number), ("Error".to_string(), KType::Str)],
    );
}

/// A user-declared family applies by its own parameter name.
#[test]
fn user_family_applies_named_type_argument() {
    let mut run = Run::new();
    run.family("Wrap", &["Elem"]);
    let applied = run.run_one_type(":(Wrap {Elem = Number})");
    assert_eq!(run.applied_args(applied), vec![("Elem".to_string(), KType::Number)]);
}

/// A compound argument is dispatched on its own, and the application waits for it.
#[test]
fn compound_type_argument_sub_dispatches() {
    let mut run = Run::new();
    run.family("Wrap", &["Elem"]);
    let applied = run.run_one_type(":(Wrap {Elem = (LIST OF Number)})");
    let list = run.types.list(KType::Number);
    assert_eq!(run.applied_args(applied), vec![("Elem".to_string(), list)]);
}

/// `Number AS Wrap` fills the family's sole parameter, so it is the type that the named form is.
#[test]
fn as_sugar_equals_named_application() {
    let mut run = Run::new();
    let wrap = run.family("Wrap", &["Elem"]);
    let named = run.run_one_type(":(Wrap {Elem = Number})");
    let params = run.types.constructor_param_names(wrap).expect("a family has parameters");
    assert_eq!(params.len(), 1);
    let sugared = run
        .types
        .constructor_apply(wrap, vec![Field { name: params[0], ktype: KType::Number }]);
    assert_eq!(sugared, named);
    assert_eq!(run.applied_args(sugared), run.applied_args(named));
}

/// Either order of the arguments names one application.
#[test]
fn named_application_is_order_blind() {
    let mut run = Run::new();
    let declared = run.run_one_type(":(Result {Ok = Number, Error = Str})");
    let reversed = run.run_one_type(":(Result {Error = Str, Ok = Number})");
    assert_eq!(declared, reversed);
    assert_eq!(run.applied_args(declared), run.applied_args(reversed));
}

/// The first application settles how its arguments stand: in declared order, whichever way round
/// they were written.
#[test]
fn reversed_arguments_stand_in_declared_order() {
    let mut run = Run::new();
    let reversed = run.run_one_type(":(Result {Error = Str, Ok = Number})");
    let nodes = run.types.nodes.len();
    assert_eq!(
        run.applied_args(reversed),
        vec![("Ok".to_string(), KType::Number), ("Error".to_string(), KType::Str)],
    );
    let declared = run.run_one_type(":(Result {Ok = Number, Error = Str})");
    assert_eq!(declared, reversed);
    assert_eq!(run.types.nodes.len(), nodes, "the second application adds nothing");
    let swapped = run.run_one_type(":(Result {Ok = Str, Error = Number})");
    assert_ne!(swapped, declared);
}

/// A record type is made of exactly its fields: neither their order nor anything else about how
/// they were written counts, and how often each stands does.
#[test]
fn record_types_are_compared_field_by_field() {
    let mut run = Run::new();
    let x = Field { name: run.symbol("x"), ktype: KType::Number };
    let y = Field { name: run.symbol("y"), ktype: KType::Str };
    let twice = run.types.record(vec![x, x]);
    let both = run.types.record(vec![x, y]);
    assert_ne!(twice, both);
    assert_eq!(run.types.record(vec![y, x]), both);
    assert_ne!(run.types.record(vec![x]), both);
    assert_ne!(run.types.record(vec![x, y, y]), both);
    match run.types.node(both) {
        Some(TypeNode::Record { fields }) => {
            assert_eq!(*fields, vec![x, y], "the first to ask settles the order");
        }
        _ => panic!("expected a record type"),
    }
}

/// An application is made of exactly its arguments.
#[test]
fn applications_are_compared_argument_by_argument() {
    let mut run = Run::new();
    let (one, two) = (run.symbol("One"), run.symbol("Two"));
    let pair = run.family("Pair", &["One", "Two"]);
    let number = Field { name: one, ktype: KType::Number };
    let text = Field { name: two, ktype: KType::Str };
    let applied = run.types.constructor_apply(pair, vec![number, text]);
    assert_eq!(run.run_one_type(":(Pair {Two = Str, One = Number})"), applied);
    let other = Field { name: two, ktype: KType::Number };
    assert_ne!(run.types.constructor_apply(pair, vec![number, other]), applied);
}

/// A head that nothing can be applied to is a dispatch failure that shows it; an expression without
/// parts has no head to show.
#[test]
fn heads_that_are_not_callable_are_named() {
    let mut run = Run::new();
    let expr = run.parse_one("3 4");
    let head = run.region.parts_of(expr)[0].value;
    match run.run_to_end(expr) {
        Err(KError {
            kind:
                KErrorKind::DispatchFailed {
                    subject,
                    reason: Message::Showing { before, shown, after },
                },
            frames,
        }) => {
            assert_eq!(subject, Subject::Expr(expr));
            assert_eq!((before.as_str(), after.as_str()), ("head is not callable: `", "`"));
            assert_eq!(shown, Subject::Part(head));
            assert!(frames.is_empty());
        }
        _ => panic!("expected a DispatchFailed"),
    }
    let empty = run.parse_one("");
    match run.run_to_end(empty) {
        Err(KError {
            kind: KErrorKind::DispatchFailed { subject, reason: Message::Plain(reason) },
            ..
        }) => {
            assert_eq!(subject, Subject::Expr(empty));
            assert_eq!(reason, "head is not callable: `<empty>`");
        }
        _ => panic!("expected a DispatchFailed"),
    }
}

/// What an application is called reads back as the application.
#[test]
fn constructor_apply_name_round_trips() {
    let mut run = Run::new();
    run.family("Wrap", &["Elem"]);
    for source in [
        ":(Wrap {Elem = Number})",
        ":(Result {Ok = Number, Error = Str})",
        ":(Wrap {Elem = (LIST OF Number)})",
        ":(Wrap {Elem = :(LIST OF Number)})",
        ":(Result {Ok = (LIST OF Number), Error = Str})",
    ] {
        let applied = run.run_one_type(source);
        let rendered = run.types.name(&run.labels, applied);
        let reparsed = run.run_one_type(&rendered);
        assert_eq!(applied, reparsed, "`{rendered}` must re-parse to the type it renders");
    }
}

/// An omitted parameter is named.
#[test]
fn missing_type_parameter_is_named() {
    let mut run = Run::new();
    let error = run.run_one_err(":(Result {Ok = Number})");
    match &error.kind {
        KErrorKind::ShapeError(Message::Plain(message)) => {
            assert!(message.contains("missing `Error`"), "got: {message}");
            assert!(message.contains("`Ok`"), "got: {message}");
            assert_eq!(message, "`Result` takes type parameters `Ok`, `Error` — missing `Error`");
        }
        _ => panic!("expected a ShapeError"),
    }
}

/// An unknown parameter is named beside the one that is left unfilled.
#[test]
fn unknown_type_parameter_is_named() {
    let mut run = Run::new();
    run.family("Wrap", &["Elem"]);
    let error = run.run_one_err(":(Wrap {Item = Number})");
    match &error.kind {
        KErrorKind::ShapeError(Message::Plain(message)) => {
            assert!(
                message.contains("unknown `Item`") && message.contains("missing `Elem`"),
                "got: {message}",
            );
        }
        _ => panic!("expected a ShapeError"),
    }
}

/// Several unknown names are listed in order of their spelling.
#[test]
fn unknown_parameters_are_sorted() {
    let mut run = Run::new();
    run.family("Wrap", &["Elem"]);
    let error = run.run_one_err(":(Wrap {Zed = Number, Elem = Str, Abc = Number})");
    match &error.kind {
        KErrorKind::ShapeError(Message::Plain(message)) => {
            assert_eq!(message, "`Wrap` takes type parameters `Elem` — unknown `Abc`, `Zed`");
        }
        _ => panic!("expected a ShapeError"),
    }
}

/// An empty argument record is checked without anything to wait for.
#[test]
fn empty_application_lists_what_is_missing() {
    let mut run = Run::new();
    let error = run.run_one_err(":(Result {})");
    match &error.kind {
        KErrorKind::ShapeError(Message::Plain(message)) => {
            assert_eq!(
                message,
                "`Result` takes type parameters `Ok`, `Error` — missing `Ok`, `Error`",
            );
        }
        _ => panic!("expected a ShapeError"),
    }
}

/// A wider family takes no value yet, but still applies by name.
#[test]
fn multi_parameter_family_rejects_value_construction() {
    let mut run = Run::new();
    run.family("Pair", &["One", "Two"]);
    let error = run.run_one_err("(Pair 3.0)");
    match &error.kind {
        KErrorKind::ShapeError(Message::Plain(message)) => {
            assert!(
                message.contains("`Pair` takes 2 type parameters")
                    && message.contains("not yet supported"),
                "unexpected message: {message}",
            );
        }
        _ => panic!("expected a ShapeError"),
    }
    let applied = run.run_one_type(":(Pair {One = Number, Two = Str})");
    assert_eq!(
        run.applied_args(applied),
        vec![("One".to_string(), KType::Number), ("Two".to_string(), KType::Str)],
    );
}

/// A tagged value carries no type arguments, so the parameter of its tag is read from the
/// application.
#[test]
fn erased_result_carrier_admits_named_application() {
    let mut run = Run::new();
    let value = run.run_one_object("(Result (Ok 3.0))");
    let admitting = run.run_one_type(":(Result {Ok = Number, Error = Any})");
    let refusing = run.run_one_type(":(Result {Ok = Str, Error = Any})");
    assert!(
        run.types.matches_value(&run.region, admitting, value),
        "an `Ok` carrier of a Number must inhabit `:(Result {{Ok = Number, Error = Any}})`",
    );
    assert!(
        !run.types.matches_value(&run.region, refusing, value),
        "the same carrier must not inhabit an application binding `Ok` to Str",
    );
}

/// A type argument that is a value is refused under the name of its parameter.
#[test]
fn value_type_argument_is_refused() {
    let mut run = Run::new();
    run.family("Wrap", &["Elem"]);
    run.bind_value("n", number(3.0));
    let error = run.run_one_err(":(Wrap {Elem = (n)})");
    match &error.kind {
        KErrorKind::TypeMismatch { arg, expected, got } => {
            assert_eq!(arg, "Elem");
            assert_eq!(expected, "Type");
            assert_eq!(got, "Number");
        }
        _ => panic!("expected a TypeMismatch"),
    }
}

/// An application over an abstract constructor slot is a type constructor.
#[test]
fn constructor_apply_over_abstract_slot_is_a_type_constructor() {
    let mut run = Run::new();
    let wrap = run.symbol("Wrap");
    let elem = run.symbol("Elem");
    let ctor = run.types.intern(TypeNode::AbstractType {
        source: ScopeId { id: 0xB0B },
        name: wrap,
        param_names: vec![elem],
    });
    let applied =
        run.types.constructor_apply(ctor, vec![Field { name: elem, ktype: KType::Number }]);
    assert_eq!(run.types.kind_of(applied), KKind::TypeConstructor);
}

/// A constructor slot applies by name and builds no value; a slot without parameters does neither.
#[test]
fn abstract_slots_apply_but_do_not_construct() {
    let mut run = Run::new();
    let wrap = run.symbol("Wrap");
    let elem = run.symbol("Elem");
    let slot = run.types.intern(TypeNode::AbstractType {
        source: ROOT,
        name: wrap,
        param_names: vec![elem],
    });
    run.bind_type("Wrap", slot);
    let applied = run.run_one_type(":(Wrap {Elem = Number})");
    assert_eq!(run.applied_args(applied), vec![("Elem".to_string(), KType::Number)]);
    match run.run_one_err("(Wrap 3.0)").kind {
        KErrorKind::ShapeError(Message::Plain(message)) => assert_eq!(
            message,
            "`Wrap` is an abstract constructor slot declared by TYPE; only a NEWTYPE-declared \
             constructor can construct values",
        ),
        _ => panic!("expected a ShapeError"),
    }
    let plain = run.symbol("Plain");
    let bare = run.types.intern(TypeNode::AbstractType {
        source: ROOT,
        name: plain,
        param_names: Vec::new(),
    });
    run.bind_type("Plain", bare);
    match run.run_one_err("(Plain 3.0)").kind {
        KErrorKind::TypeMismatch { arg, expected, .. } => {
            assert_eq!((arg.as_str(), expected.as_str()), ("verb", "constructible Type"));
        }
        _ => panic!("expected a TypeMismatch"),
    }
}

fn maybe(run: &mut Run) -> Vec<KType> {
    run.union("Maybe", &[("Some", KType::Number), ("None", KType::Null)])
}

/// Applies the union with the schema of all its members.
fn run_union(run: &mut Run, members: &Vec<KType>, source: &str) -> Result<Carried, KError> {
    let expr = run.parse_one(source);
    let outcome =
        apply_union_construct(&run.types, &run.labels, &mut run.region, members, expr);
    match outcome {
        Outcome::Done(result) => result,
        Outcome::Park { deps: ParkDeps::List(deps), continuation, error_frame } => {
            let results: Vec<Result<Carried, KError>> = deps
                .into_iter()
                .map(|dep| match dep {
                    Dep::Request(DepRequest::Dispatch { expr, .. }) => run.run_to_end(expr),
                    _ => panic!("only sub-dispatches are waited for here"),
                })
                .collect();
            let values = settle_results(&results, error_frame)?;
            match run.wake(continuation, values) {
                Outcome::Done(result) => result,
                _ => panic!("a construction is done once its value has landed"),
            }
        }
        _ => panic!("a union is applied or waits for its value"),
    }
}

fn assert_value_mismatch(error: &KError) {
    match &error.kind {
        KErrorKind::TypeMismatch { arg, expected, got } => {
            assert_eq!(arg, "value");
            assert_eq!(expected, "Number");
            assert_eq!(got, "Str");
        }
        _ => panic!("expected TypeMismatch on value"),
    }
}

/// The value of a projected variant is checked against the payload that the variant declares.
#[test]
fn tests_ctor_fast_lane_rejects_value_of_wrong_type() {
    let mut run = Run::new();
    maybe(&mut run);
    assert_value_mismatch(&run.run_one_err("Maybe.Some \"oops\""));
}

/// A tag of a union asks for the payload of its variant.
#[test]
fn ctor_fast_lane_rejects_value_of_wrong_type() {
    let mut run = Run::new();
    let members = maybe(&mut run);
    assert_value_mismatch(&run.run_one_err("Maybe (Some \"oops\")"));
    match run_union(&mut run, &members, "Maybe (Some \"oops\")") {
        Err(e) => assert_value_mismatch(&e),
        Ok(_) => panic!("expected TypeMismatch on value"),
    }
}

/// Projecting a name that the union does not declare is an error that lists the members.
#[test]
fn tests_ctor_fast_lane_propagates_tag_validation_error() {
    let mut run = Run::new();
    maybe(&mut run);
    let err = run.run_one_err("Maybe.Other 42");
    assert!(
        matches!(
            &err.kind,
            KErrorKind::ShapeError(Message::Plain(msg)) if msg.contains("`Other`")
        ),
        "expected ShapeError mentioning `Other`",
    );
    let expected = "`Other` is not a variant of the union (variants: None, Some)";
    assert!(matches!(&err.kind, KErrorKind::ShapeError(Message::Plain(msg)) if msg == expected));
}

/// So is a tag that the union does not declare.
#[test]
fn ctor_fast_lane_propagates_tag_validation_error() {
    let mut run = Run::new();
    let members = maybe(&mut run);
    let expected = "`Other` is not a variant of the union (variants: None, Some)";
    let err = run.run_one_err("Maybe (Other 42)");
    assert!(
        matches!(
            &err.kind,
            KErrorKind::ShapeError(Message::Plain(msg)) if msg.contains("`Other`")
        ),
        "expected ShapeError mentioning `Other`",
    );
    assert!(matches!(&err.kind, KErrorKind::ShapeError(Message::Plain(msg)) if msg == expected));
    match run_union(&mut run, &members, "Maybe (Other 42)") {
        Err(e) => {
            assert!(matches!(
                &e.kind,
                KErrorKind::ShapeError(Message::Plain(msg)) if msg == expected
            ));
        }
        Ok(_) => panic!("expected a ShapeError"),
    }
}

/// A value that is itself an expression is evaluated before the projected variant wraps it.
#[test]
fn tests_ctor_fast_lane_with_sub_expression_value() {
    let mut run = Run::new();
    maybe(&mut run);
    run.bind_value("x", number(7.0));
    let some = run.symbol("Some");
    let result = run.run_one_object("Maybe.Some (x)");
    match run.region.object(result) {
        Some(KObject::Wrapped { inner, type_id }) => {
            assert!(matches!(
                run.region.object(*inner),
                Some(KObject::Number(n)) if f64::from_bits(*n) == 7.0
            ));
            match run.types.node(*type_id) {
                Some(TypeNode::SetMember { name, .. }) => assert_eq!(*name, some),
                _ => panic!("expected a member SetMember identity, got {type_id:?}"),
            }
        }
        _ => panic!("expected Wrapped"),
    }
}

/// Through its union a variant is a tagged value under the member's own identity.
#[test]
fn ctor_fast_lane_with_sub_expression_value() {
    let mut run = Run::new();
    let members = maybe(&mut run);
    run.bind_value("x", number(7.0));
    let some = run.symbol("Some");
    let applied = run.run_one_object("Maybe (Some (x))");
    let whole = match run_union(&mut run, &members, "Maybe (Some (x))") {
        Ok(Carried::Object(object)) => object,
        _ => panic!("expected a value"),
    };
    for object in [applied, whole] {
        match run.region.object(object) {
            Some(KObject::Tagged { tag, value, identity }) => {
                assert_eq!(*tag, some);
                assert!(matches!(
                    run.region.object(*value),
                    Some(KObject::Number(n)) if f64::from_bits(*n) == 7.0
                ));
                match run.types.node(*identity) {
                    Some(TypeNode::SetMember { name, .. }) => assert_eq!(*name, some),
                    _ => panic!("expected a member SetMember identity, got {identity:?}"),
                }
            }
            _ => panic!("expected Tagged"),
        }
    }
}

/// A lone tag names the variant itself.
#[test]
fn lone_tag_is_the_variant_type() {
    let mut run = Run::new();
    let members = maybe(&mut run);
    assert_eq!(run.run_one_type("Maybe Some"), members[0]);
    assert!(matches!(
        run_union(&mut run, &members, "Maybe None"),
        Ok(Carried::Type(kt)) if kt == members[1]
    ));
}

/// A union takes its value in a group, never as a record.
#[test]
fn unions_refuse_named_bodies() {
    let mut run = Run::new();
    maybe(&mut run);
    match run.run_one_err("Maybe {Some = 3}").kind {
        KErrorKind::DispatchFailed { reason: Message::Plain(reason), .. } => assert_eq!(
            reason,
            "positional construction takes `(value)`, not a record literal `{name = value}`",
        ),
        _ => panic!("expected a DispatchFailed"),
    }
}

/// A wrapper checks its value, holds it, and is known by its own type.
#[test]
fn wrappers_hold_what_they_are_built_from() {
    let mut run = Run::new();
    let distance = run.declare("Distance", NodeSchema::NewType(KType::Number));
    let first = run.run_one_object("Distance 3.0");
    let grouped = run.run_one_object("Distance (3.0)");
    for object in [first, grouped] {
        assert_eq!(run.region.object_type(object), distance);
        assert!(matches!(
            run.region.object(object),
            Some(KObject::Wrapped { inner, .. })
                if matches!(run.region.object(*inner), Some(KObject::Number(n)) if f64::from_bits(*n) == 3.0)
        ));
    }
    match run.run_one_err("Distance \"far\"").kind {
        KErrorKind::TypeMismatch { arg, expected, got } => {
            assert_eq!((arg.as_str(), expected.as_str(), got.as_str()), ("value", "Number", "Str"));
        }
        _ => panic!("expected a TypeMismatch"),
    }
    match run.run_one_err("Distance ()").kind {
        KErrorKind::ArityMismatch { expected, got } => assert_eq!((expected, got), (1, 0)),
        _ => panic!("expected an ArityMismatch"),
    }
}

/// A type that only renames another does not add a second wrapper layer.
#[test]
fn renaming_wraps_the_same_value() {
    let mut run = Run::new();
    let foo = run.declare("Foo", NodeSchema::NewType(KType::Number));
    let bar = run.declare("Bar", NodeSchema::NewType(foo));
    let object = run.run_one_object("Bar (Foo 3.0)");
    assert_eq!(run.region.object_type(object), bar);
    match run.region.object(object) {
        Some(KObject::Wrapped { inner, .. }) => {
            assert!(matches!(run.region.object(*inner), Some(KObject::Number(_))));
        }
        _ => panic!("expected Wrapped"),
    }
}

/// A variant that wraps a member of its own union keeps the nested value.
#[test]
fn union_payloads_stay_nested() {
    let mut run = Run::new();
    let zero = run.declare("Zero", NodeSchema::NewType(KType::Null));
    let nat = run.types.union_of(vec![zero]);
    run.declare("Succ", NodeSchema::NewType(nat));
    run.bind_value("nothing", KObject::Null);
    let object = run.run_one_object("Succ (Zero nothing)");
    match run.region.object(object) {
        Some(KObject::Wrapped { inner, .. }) => {
            assert_eq!(run.region.object_type(*inner), zero);
        }
        _ => panic!("expected Wrapped"),
    }
}

/// A record body fills a record wrapper field by field; a missing field is a mismatch.
#[test]
fn record_wrappers_are_built_by_field() {
    let mut run = Run::new();
    let x = run.symbol("x");
    let y = run.symbol("y");
    let repr = run.types.record(vec![
        Field { name: x, ktype: KType::Number },
        Field { name: y, ktype: KType::Number },
    ]);
    let point = run.declare("Point", NodeSchema::NewType(repr));
    let object = run.run_one_object("Point {y = 2, x = 1}");
    assert_eq!(run.region.object_type(object), point);
    let record = match run.region.object(object) {
        Some(KObject::Wrapped { inner, .. }) => *inner,
        _ => panic!("expected Wrapped"),
    };
    match run.region.object(record) {
        Some(KObject::Record { fields, ktype }) => {
            let names: Vec<Symbol> = fields.iter().map(|cell| cell.name).collect();
            assert_eq!(names, vec![y, x], "the fields stand as they were written");
            assert_eq!(*ktype, repr, "the order of fields does not make another type");
        }
        _ => panic!("expected a record"),
    }
    assert!(matches!(run.run_one_err("Point {x = 1}").kind, KErrorKind::TypeMismatch { .. }));
    assert!(matches!(
        run.run_one_err("Point {x = 1, y = \"two\"}").kind,
        KErrorKind::TypeMismatch { .. }
    ));
}

/// An identity wrapper binds its parameter to the full type of its value and peels one layer.
#[test]
fn identity_wrappers_remember_the_type_of_their_value() {
    let mut run = Run::new();
    let wrap = run.family("Wrap", &["Elem"]);
    let foo = run.declare("Foo", NodeSchema::NewType(KType::Number));
    let object = run.run_one_object("Wrap ((Foo 3.0))");
    match run.region.object(object) {
        Some(KObject::Wrapped { inner, type_id }) => {
            assert!(matches!(run.region.object(*inner), Some(KObject::Number(_))));
            assert_eq!(run.applied_args(*type_id), vec![("Elem".to_string(), foo)]);
            assert!(matches!(
                run.types.node(*type_id),
                Some(TypeNode::ConstructorApply { constructor, .. }) if *constructor == wrap
            ));
        }
        _ => panic!("expected Wrapped"),
    }
}

/// A tag stands in front of exactly one value.
#[test]
fn tagged_bodies_are_a_tag_and_a_value() {
    let mut run = Run::new();
    match run.run_one_err("Result (Ok 1 2)").kind {
        KErrorKind::ArityMismatch { expected, got } => assert_eq!((expected, got), (2, 3)),
        _ => panic!("expected an ArityMismatch"),
    }
    match run.run_one_err("Result (ok 1)").kind {
        KErrorKind::ShapeError(Message::Showing { before, shown, after }) => {
            assert_eq!(
                before,
                "tagged-union construction = first arg must be a capitalized variant tag, got ",
            );
            let got = ExpressionPart::Identifier(run.symbol("ok"));
            assert_eq!(shown, Subject::Part(WorkingPart::Ast(got)));
            assert_eq!(after, "");
        }
        _ => panic!("expected a ShapeError"),
    }
    match run.run_one_err("Result (Other 1)").kind {
        KErrorKind::ShapeError(Message::Plain(message)) => {
            assert_eq!(message, "tag `Other` not in union (known: Ok, Error)");
        }
        _ => panic!("expected a ShapeError"),
    }
}

/// A plain type builds nothing.
#[test]
fn plain_types_are_not_constructible() {
    let mut run = Run::new();
    match run.run_one_err("Number 3").kind {
        KErrorKind::TypeMismatch { arg, expected, got } => assert_eq!(
            (arg.as_str(), expected.as_str(), got.as_str()),
            ("verb", "constructible Type", "Number"),
        ),
        _ => panic!("expected a TypeMismatch"),
    }
    assert!(matches!(
        run.run_one_err("Missing 3").kind,
        KErrorKind::UnboundName(name) if name == "Missing"
    ));
}
