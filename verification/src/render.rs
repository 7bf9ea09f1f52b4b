//! The render model: what rendering a parsed template against a registry of
//! value producers yields.
//!
//! The registry is an ordered list of `(name, producer)` registrations;
//! [`lookup_spec`] resolves a name to its latest registration. Handler
//! results are not fixed by the model — a handler is arbitrary caller code —
//! so rendering is described relative to a sequence of per-expression
//! outcomes: [`frag_at`] and [`errs_at`] give each expression's contribution
//! to the output and to the error list, [`output_of`] and [`errors_of`]
//! concatenate them in document order, and [`render_rel`] ties a concrete
//! render result to some such outcome sequence.

use vstd::prelude::*;

verus! {

use vstd::seq_lib::lemma_flatten_concat;
use crate::parse::Expression;

/// A value producer invoked at render time: takes the placeholder's argument
/// tokens and the caller's context, and returns the substitution or an error
/// message. Implemented by the host application; nothing is assumed of it.
pub trait Handler<C> {
    /// Produces the substitution for one placeholder, or an error message.
    fn invoke(&self, arguments: &Vec<String>, context: &C) -> Result<String, String>;
}

/// What a registered placeholder name resolves to.
pub enum ValueProducer<H> {
    /// A handler invoked with the placeholder's arguments and the render
    /// context.
    Handler(H),
    /// A fixed string substituted verbatim, whatever the arguments.
    Static(String),
}

/// The producer a name resolves to: the latest registration under that name
/// wins; `None` where the name was never registered.
pub open spec fn lookup_spec<H>(
    reg: Seq<(String, ValueProducer<H>)>,
    name: Seq<char>,
) -> Option<ValueProducer<H>>
    decreases reg.len(),
{
    if reg.len() == 0 {
        None
    } else if reg.last().0@ == name {
        Some(reg.last().1)
    } else {
        lookup_spec(reg.drop_last(), name)
    }
}

/// Whether the expression is a placeholder that resolves to a handler — the
/// one case whose contribution depends on a render-time outcome.
pub open spec fn is_handler_dispatch<H>(
    e: Expression,
    reg: Seq<(String, ValueProducer<H>)>,
) -> bool {
    match e {
        Expression::Function { name, arguments: _ } => lookup_spec(reg, name@) matches Some(
            ValueProducer::Handler(_),
        ),
        Expression::Literal(_) => false,
    }
}

/// The text expression `i` contributes to the output: its own text for a
/// literal, the registered static value, the handler's successful result, or
/// the empty string for a missing producer or a failed handler.
pub open spec fn frag_at<H>(
    es: Seq<Expression>,
    reg: Seq<(String, ValueProducer<H>)>,
    oc: Seq<Result<Seq<char>, Seq<char>>>,
    i: int,
) -> Seq<char> {
    match es[i] {
        Expression::Literal(t) => t@,
        Expression::Function { name, arguments: _ } => match lookup_spec(reg, name@) {
            None => Seq::empty(),
            Some(ValueProducer::Static(v)) => v@,
            Some(ValueProducer::Handler(_)) => match oc[i] {
                Ok(out) => out,
                Err(_) => Seq::empty(),
            },
        },
    }
}

/// The error entries expression `i` contributes: the handler's message where
/// it failed, nothing otherwise.
pub open spec fn errs_at<H>(
    es: Seq<Expression>,
    reg: Seq<(String, ValueProducer<H>)>,
    oc: Seq<Result<Seq<char>, Seq<char>>>,
    i: int,
) -> Seq<Seq<char>> {
    match es[i] {
        Expression::Literal(_) => Seq::empty(),
        Expression::Function { name, arguments: _ } => match lookup_spec(reg, name@) {
            Some(ValueProducer::Handler(_)) => match oc[i] {
                Ok(_) => Seq::empty(),
                Err(m) => seq![m],
            },
            _ => Seq::empty(),
        },
    }
}

/// Every expression's output contribution, in document order.
pub open spec fn frags<H>(
    es: Seq<Expression>,
    reg: Seq<(String, ValueProducer<H>)>,
    oc: Seq<Result<Seq<char>, Seq<char>>>,
) -> Seq<Seq<char>> {
    Seq::new(es.len(), |i: int| frag_at(es, reg, oc, i))
}

/// Every expression's error contribution, in document order.
pub open spec fn err_frags<H>(
    es: Seq<Expression>,
    reg: Seq<(String, ValueProducer<H>)>,
    oc: Seq<Result<Seq<char>, Seq<char>>>,
) -> Seq<Seq<Seq<char>>> {
    Seq::new(es.len(), |i: int| errs_at(es, reg, oc, i))
}

/// The rendered output: every expression's contribution, concatenated in
/// document order.
pub open spec fn output_of<H>(
    es: Seq<Expression>,
    reg: Seq<(String, ValueProducer<H>)>,
    oc: Seq<Result<Seq<char>, Seq<char>>>,
) -> Seq<char> {
    frags(es, reg, oc).flatten()
}

/// The collected error messages, in document order of the failing
/// placeholders.
pub open spec fn errors_of<H>(
    es: Seq<Expression>,
    reg: Seq<(String, ValueProducer<H>)>,
    oc: Seq<Result<Seq<char>, Seq<char>>>,
) -> Seq<Seq<char>> {
    err_frags(es, reg, oc).flatten()
}

/// How a concrete render result relates to the template and the registry:
/// an outcome sequence — one slot per expression, only the slots of
/// handler-dispatched placeholders being read — explains the output and the
/// error list.
pub open spec fn render_rel<H>(
    es: Seq<Expression>,
    reg: Seq<(String, ValueProducer<H>)>,
    oc: Seq<Result<Seq<char>, Seq<char>>>,
    out: Seq<char>,
    errs: Seq<Seq<char>>,
) -> bool {
    &&& oc.len() == es.len()
    &&& out == output_of(es, reg, oc)
    &&& errs == errors_of(es, reg, oc)
}

/// Every placeholder of the template resolves to a static producer.
pub open spec fn all_static<H>(
    es: Seq<Expression>,
    reg: Seq<(String, ValueProducer<H>)>,
) -> bool {
    forall|i: int|
        0 <= i < es.len() ==> (match #[trigger] es[i] {
            Expression::Function { name, arguments: _ } => lookup_spec(reg, name@) matches Some(
                ValueProducer::Static(_),
            ),
            Expression::Literal(_) => true,
        })
}

/// Flattening a sequence of empty sequences yields the empty sequence.
proof fn lemma_flatten_all_empty<A>(ss: Seq<Seq<A>>)
    requires
        forall|i: int| 0 <= i < ss.len() ==> ss[i] == Seq::<A>::empty(),
    ensures
        ss.flatten() == Seq::<A>::empty(),
    decreases ss.len(),
{
    if ss.len() > 0 {
        lemma_flatten_all_empty(ss.drop_first());
        assert(ss.flatten() =~= Seq::<A>::empty());
    }
}

/// Idempotence of static rendering: a template whose every placeholder
/// resolves to a static producer renders one fixed output and no errors,
/// whatever outcomes the render-time context could give rise to.
pub proof fn lemma_static_render_independent<H>(
    es: Seq<Expression>,
    reg: Seq<(String, ValueProducer<H>)>,
    oc1: Seq<Result<Seq<char>, Seq<char>>>,
    oc2: Seq<Result<Seq<char>, Seq<char>>>,
)
    requires
        all_static(es, reg),
    ensures
        output_of(es, reg, oc1) == output_of(es, reg, oc2),
        errors_of(es, reg, oc1) == Seq::<Seq<char>>::empty(),
        errors_of(es, reg, oc2) == Seq::<Seq<char>>::empty(),
{
    assert(frags(es, reg, oc1) =~= frags(es, reg, oc2));
    lemma_flatten_all_empty(err_frags(es, reg, oc1));
    lemma_flatten_all_empty(err_frags(es, reg, oc2));
}

/// Error isolation, part one: each expression's contributions depend only on
/// that expression's own outcome, so one handler's failure leaves every other
/// expression's rendering unchanged. Part two: the error list gains exactly
/// one entry, the handler's message, for each failing placeholder, and
/// nothing for any other expression.
pub proof fn lemma_error_isolation<H>(
    es: Seq<Expression>,
    reg: Seq<(String, ValueProducer<H>)>,
    oc1: Seq<Result<Seq<char>, Seq<char>>>,
    oc2: Seq<Result<Seq<char>, Seq<char>>>,
)
    ensures
        forall|i: int|
            0 <= i < es.len() && oc1[i] == oc2[i] ==> frag_at(es, reg, oc1, i) == frag_at(
                es,
                reg,
                oc2,
                i,
            ) && errs_at(es, reg, oc1, i) == errs_at(es, reg, oc2, i),
        forall|i: int|
            0 <= i < es.len() ==> errs_at(es, reg, oc1, i) == (
            if is_handler_dispatch(es[i], reg) && oc1[i] is Err {
                seq![oc1[i]->Err_0]
            } else {
                Seq::<Seq<char>>::empty()
            }),
{
}

/// Renders are determined by what each name resolves to: two registries with
/// the same lookup render every template alike.
pub proof fn lemma_lookup_determines_render<H>(
    es: Seq<Expression>,
    r1: Seq<(String, ValueProducer<H>)>,
    r2: Seq<(String, ValueProducer<H>)>,
    oc: Seq<Result<Seq<char>, Seq<char>>>,
)
    requires
        forall|m: Seq<char>| lookup_spec(r1, m) == lookup_spec(r2, m),
    ensures
        output_of(es, r1, oc) == output_of(es, r2, oc),
        errors_of(es, r1, oc) == errors_of(es, r2, oc),
{
    assert(frags(es, r1, oc) =~= frags(es, r2, oc));
    assert(err_frags(es, r1, oc) =~= err_frags(es, r2, oc));
}

/// Override semantics: of two registrations under the same name, the later
/// one is what lookup resolves, and what every render observes.
pub proof fn lemma_override_semantics<H>(
    reg: Seq<(String, ValueProducer<H>)>,
    e1: (String, ValueProducer<H>),
    e2: (String, ValueProducer<H>),
)
    requires
        e1.0@ == e2.0@,
    ensures
        forall|m: Seq<char>|
            lookup_spec(reg.push(e1).push(e2), m) == lookup_spec(reg.push(e2), m),
        forall|es: Seq<Expression>, oc: Seq<Result<Seq<char>, Seq<char>>>|
            output_of(es, reg.push(e1).push(e2), oc) == #[trigger] output_of(
                es,
                reg.push(e2),
                oc,
            ),
        forall|es: Seq<Expression>, oc: Seq<Result<Seq<char>, Seq<char>>>|
            errors_of(es, reg.push(e1).push(e2), oc) == #[trigger] errors_of(
                es,
                reg.push(e2),
                oc,
            ),
{
    assert forall|m: Seq<char>|
        lookup_spec(reg.push(e1).push(e2), m) == lookup_spec(reg.push(e2), m) by {
        let r12 = reg.push(e1).push(e2);
        assert(r12.last() == e2);
        assert(reg.push(e2).last() == e2);
        if e2.0@ == m {
            assert(lookup_spec(r12, m) == Some(e2.1));
            assert(lookup_spec(reg.push(e2), m) == Some(e2.1));
        } else {
            assert(r12.drop_last() =~= reg.push(e1));
            assert(lookup_spec(r12, m) == lookup_spec(reg.push(e1), m));
            assert(reg.push(e1).last() == e1);
            assert(reg.push(e1).drop_last() =~= reg);
            assert(lookup_spec(reg.push(e1), m) == lookup_spec(reg, m));
            assert(reg.push(e2).drop_last() =~= reg);
            assert(lookup_spec(reg.push(e2), m) == lookup_spec(reg, m));
        }
    }
    assert forall|es: Seq<Expression>, oc: Seq<Result<Seq<char>, Seq<char>>>|
        output_of(es, reg.push(e1).push(e2), oc) == #[trigger] output_of(
            es,
            reg.push(e2),
            oc,
        ) by {
        lemma_lookup_determines_render(es, reg.push(e1).push(e2), reg.push(e2), oc);
    }
    assert forall|es: Seq<Expression>, oc: Seq<Result<Seq<char>, Seq<char>>>|
        errors_of(es, reg.push(e1).push(e2), oc) == #[trigger] errors_of(
            es,
            reg.push(e2),
            oc,
        ) by {
        lemma_lookup_determines_render(es, reg.push(e1).push(e2), reg.push(e2), oc);
    }
}

/// Missing-handler tolerance: a placeholder with no registered producer
/// contributes an empty substitution and no error entry — dropping it from
/// the template changes neither the rendered output nor the error list.
pub proof fn lemma_missing_handler_tolerance<H>(
    a: Seq<Expression>,
    e: Expression,
    b: Seq<Expression>,
    reg: Seq<(String, ValueProducer<H>)>,
    oc_a: Seq<Result<Seq<char>, Seq<char>>>,
    x: Result<Seq<char>, Seq<char>>,
    oc_b: Seq<Result<Seq<char>, Seq<char>>>,
)
    requires
        oc_a.len() == a.len(),
        oc_b.len() == b.len(),
        e matches Expression::Function { name, arguments: _ } && lookup_spec(reg, name@) is None,
    ensures
        output_of(a + seq![e] + b, reg, oc_a + seq![x] + oc_b) == output_of(
            a + b,
            reg,
            oc_a + oc_b,
        ),
        errors_of(a + seq![e] + b, reg, oc_a + seq![x] + oc_b) == errors_of(
            a + b,
            reg,
            oc_a + oc_b,
        ),
{
    let es1 = a + seq![e] + b;
    let oc1 = oc_a + seq![x] + oc_b;
    let es2 = a + b;
    let oc2 = oc_a + oc_b;
    let fx = Seq::new(a.len(), |i: int| frag_at(es1, reg, oc1, i));
    let fy = Seq::new(b.len(), |i: int| frag_at(es1, reg, oc1, a.len() + 1 + i));
    let f1 = frags(es1, reg, oc1);
    let f2 = frags(es2, reg, oc2);
    assert(frag_at(es1, reg, oc1, a.len() as int) == Seq::<char>::empty());
    assert(f1 =~= fx + seq![Seq::<char>::empty()] + fy);
    assert(f2 =~= fx + fy);
    lemma_flatten_concat(fx + seq![Seq::<char>::empty()], fy);
    lemma_flatten_concat(fx, seq![Seq::<char>::empty()]);
    lemma_flatten_concat(fx, fy);
    seq![Seq::<char>::empty()].lemma_flatten_singleton();
    assert(seq![Seq::<char>::empty()].flatten() =~= Seq::<char>::empty());
    assert(f1.flatten() =~= f2.flatten());
    let ex = Seq::new(a.len(), |i: int| errs_at(es1, reg, oc1, i));
    let ey = Seq::new(b.len(), |i: int| errs_at(es1, reg, oc1, a.len() + 1 + i));
    let g1 = err_frags(es1, reg, oc1);
    let g2 = err_frags(es2, reg, oc2);
    assert(errs_at(es1, reg, oc1, a.len() as int) == Seq::<Seq<char>>::empty());
    assert(g1 =~= ex + seq![Seq::<Seq<char>>::empty()] + ey);
    assert(g2 =~= ex + ey);
    lemma_flatten_concat(ex + seq![Seq::<Seq<char>>::empty()], ey);
    lemma_flatten_concat(ex, seq![Seq::<Seq<char>>::empty()]);
    lemma_flatten_concat(ex, ey);
    seq![Seq::<Seq<char>>::empty()].lemma_flatten_singleton();
    assert(seq![Seq::<Seq<char>>::empty()].flatten() =~= Seq::<Seq<char>>::empty());
    assert(g1.flatten() =~= g2.flatten());
}

} // verus!
