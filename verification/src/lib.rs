//! Edo is a very simple templating language. A template string is parsed into
//! a sequence of literal segments and `{name}` / `{name(args)}` placeholders;
//! rendering substitutes each placeholder with the value of a registered
//! producer — a fixed string or a caller-supplied handler — collecting
//! per-placeholder errors without aborting the render.
//!
//! A placeholder with no registered producer renders as the empty string; a
//! handler that reports an error contributes the empty string and one entry
//! in the returned error list. Registering twice under one name keeps the
//! later registration.

use vstd::prelude::*;

pub mod error;
pub mod parse;
pub mod render;

verus! {

use core::marker::PhantomData;
use crate::error::EdoError;
use crate::parse::{parse, parse_all, Expression};
use crate::render::{
    errs_at,
    frag_at,
    frags,
    err_frags,
    errors_of,
    lookup_spec,
    output_of,
    render_rel,
    Handler,
    ValueProducer,
};

/// A single template: the parsed expression sequence and the registry of
/// value producers. `C` is the render-time context type shared by every
/// handler of the template; `H` is the handler type registrations carry.
pub struct Edo<C, H> {
    value_producers: Vec<(String, ValueProducer<H>)>,
    template: Vec<Expression>,
    context: PhantomData<C>,
}

impl<C, H: Handler<C>> Edo<C, H> {
    /// The parsed expression sequence this template renders.
    pub closed spec fn exprs(&self) -> Seq<Expression> {
        self.template@
    }

    /// The registrations made so far, in order.
    pub closed spec fn producers(&self) -> Seq<(String, ValueProducer<H>)> {
        self.value_producers@
    }

    /// Creates a new template instance from a template string: the string is
    /// parsed once, and the registry starts empty. Fails with a parse error
    /// exactly where the grammar cannot consume the whole input.
    pub fn new(template_string: &str) -> (r: Result<Edo<C, H>, EdoError>)
        ensures
            match r {
                Ok(t) => {
                    &&& parse_all(template_string@) == Some(
                        t.exprs().map_values(|e: Expression| e@),
                    )
                    &&& t.producers() == Seq::<(String, ValueProducer<H>)>::empty()
                },
                Err(e) => parse_all(template_string@) is None && e == EdoError::ParsingError,
            },
    {
        match parse(template_string) {
            Err(e) => Err(e),
            Ok(template) => Ok(
                Edo { value_producers: Vec::new(), template, context: PhantomData },
            ),
        }
    }

    /// Registers a function handler under `name`. A later registration under
    /// the same name, of either kind, overrides an earlier one.
    pub fn register_handler(&mut self, name: &str, handler: H)
        ensures
            final(self).exprs() == old(self).exprs(),
            forall|m: Seq<char>|
                lookup_spec(final(self).producers(), m) == (if m == name@ {
                    Some(ValueProducer::Handler(handler))
                } else {
                    lookup_spec(old(self).producers(), m)
                }),
    {
        self.value_producers.push((name.to_owned(), ValueProducer::Handler(handler)));
        proof {
            let r = self.value_producers@;
            assert forall|m: Seq<char>|
                lookup_spec(r, m) == (if m == name@ {
                    Some(ValueProducer::Handler(handler))
                } else {
                    lookup_spec(old(self).value_producers@, m)
                }) by {
                assert(r.drop_last() =~= old(self).value_producers@);
            }
        }
    }

    /// Registers a fixed replacement string under `name`. A later
    /// registration under the same name, of either kind, overrides an
    /// earlier one.
    pub fn register_static(&mut self, name: &str, input: &str)
        ensures
            final(self).exprs() == old(self).exprs(),
            lookup_spec(final(self).producers(), name@) matches Some(ValueProducer::Static(v))
                && v@ == input@,
            forall|m: Seq<char>|
                m != name@ ==> lookup_spec(final(self).producers(), m) == lookup_spec(
                    old(self).producers(),
                    m,
                ),
    {
        self.value_producers.push((name.to_owned(), ValueProducer::Static(input.to_owned())));
        proof {
            let r = self.value_producers@;
            assert forall|m: Seq<char>|
                m != name@ implies lookup_spec(r, m) == lookup_spec(
                old(self).value_producers@,
                m,
            ) by {
                assert(r.drop_last() =~= old(self).value_producers@);
            }
        }
    }

    /// Looks up the producer registered under `name`, if any: the latest
    /// registration wins.
    pub fn lookup(&self, name: &str) -> (r: Option<&ValueProducer<H>>)
        ensures
            match r {
                Some(p) => lookup_spec(self.producers(), name@) == Some(*p),
                None => lookup_spec(self.producers(), name@) is None,
            },
    {
        let key: String = name.to_owned();
        let mut j = self.value_producers.len();
        proof {
            assert(self.value_producers@.take(j as int) =~= self.value_producers@);
        }
        while j > 0
            invariant
                j <= self.value_producers.len(),
                key@ == name@,
                lookup_spec(self.value_producers@, name@) == lookup_spec(
                    self.value_producers@.take(j as int),
                    name@,
                ),
            decreases j,
        {
            j = j - 1;
            let ghost pre = self.value_producers@.take(j as int + 1);
            proof {
                assert(pre.drop_last() =~= self.value_producers@.take(j as int));
                assert(pre.last() == self.value_producers@[j as int]);
            }
            if self.value_producers[j].0 == key {
                return Some(&self.value_producers[j].1);
            }
        }
        proof {
            assert(self.value_producers@.take(0) =~= Seq::<(String, ValueProducer<H>)>::empty());
        }
        None
    }

    /// Renders the template into a string: each literal verbatim, each
    /// placeholder replaced by its producer's value — the empty string where
    /// no producer is registered or the handler reported an error.
    pub fn render(&self, context: C) -> (output: String)
        ensures
            exists|oc: Seq<Result<Seq<char>, Seq<char>>>, errs: Seq<Seq<char>>|
                #![trigger oc.len(), errs.len()]
                render_rel(self.exprs(), self.producers(), oc, output@, errs),
    {
        let (output, _errors) = self.render_with_errors(context);
        proof {
            let oc = choose|oc: Seq<Result<Seq<char>, Seq<char>>>|
                #![trigger oc.len()]
                render_rel(
                    self.exprs(),
                    self.producers(),
                    oc,
                    output@,
                    _errors@.map_values(|m: String| m@),
                );
            assert(render_rel(
                self.exprs(),
                self.producers(),
                oc,
                output@,
                _errors@.map_values(|m: String| m@),
            ));
        }
        output
    }

    /// Renders the template into a string and also returns the handler error
    /// messages, one per failing placeholder, in document order. The render
    /// always completes: a missing producer or a failing handler only makes
    /// its own placeholder empty.
    pub fn render_with_errors(&self, context: C) -> (r: (String, Vec<String>))
        ensures
            exists|oc: Seq<Result<Seq<char>, Seq<char>>>|
                #![trigger oc.len()]
                render_rel(
                    self.exprs(),
                    self.producers(),
                    oc,
                    r.0@,
                    r.1@.map_values(|m: String| m@),
                ),
    {
        let ghost es = self.template@;
        let ghost reg = self.value_producers@;
        let mut out = String::new();
        let mut errors: Vec<String> = Vec::new();
        let ghost mut oc: Seq<Result<Seq<char>, Seq<char>>> = Seq::empty();
        let n = self.template.len();
        let mut idx: usize = 0;
        while idx < n
            invariant
                idx <= n,
                n == self.template.len(),
                es == self.template@,
                reg == self.value_producers@,
                oc.len() == idx,
                out@ == output_of(es.take(idx as int), reg, oc),
                errors@.map_values(|m: String| m@) == errors_of(es.take(idx as int), reg, oc),
            decreases n - idx,
        {
            let ghost i = idx as int;
            let ghost old_out = out@;
            let ghost old_errs = errors@;
            let ghost mut step: Result<Seq<char>, Seq<char>> = Ok(Seq::empty());
            match &self.template[idx] {
                Expression::Literal(t) => {
                    out.append(t.as_str());
                    proof {
                        assert(frag_at(es, reg, oc.push(step), i) == t@);
                        assert(errs_at(es, reg, oc.push(step), i) =~= Seq::<Seq<char>>::empty());
                    }
                },
                Expression::Function { name, arguments } => {
                    match self.lookup(name.as_str()) {
                        None => {
                            proof {
                                assert(frag_at(es, reg, oc.push(step), i) =~= Seq::<char>::empty());
                                assert(errs_at(es, reg, oc.push(step), i) =~= Seq::<
                                    Seq<char>,
                                >::empty());
                                assert(out@ =~= old_out + frag_at(es, reg, oc.push(step), i));
                            }
                        },
                        Some(p) => match p {
                            ValueProducer::Static(v) => {
                                out.append(v.as_str());
                                proof {
                                    assert(frag_at(es, reg, oc.push(step), i) == v@);
                                    assert(errs_at(es, reg, oc.push(step), i) =~= Seq::<
                                        Seq<char>,
                                    >::empty());
                                }
                            },
                            ValueProducer::Handler(h) => {
                                match h.invoke(arguments, &context) {
                                    Ok(s) => {
                                        proof {
                                            step = Ok(s@);
                                            assert(frag_at(es, reg, oc.push(step), i) == s@);
                                            assert(errs_at(es, reg, oc.push(step), i) =~= Seq::<
                                                Seq<char>,
                                            >::empty());
                                        }
                                        out.append(s.as_str());
                                    },
                                    Err(m) => {
                                        proof {
                                            step = Err(m@);
                                            assert(frag_at(es, reg, oc.push(step), i) =~= Seq::<
                                                char,
                                            >::empty());
                                            assert(errs_at(es, reg, oc.push(step), i) == seq![m@]);
                                            assert(out@ =~= old_out + frag_at(
                                                es,
                                                reg,
                                                oc.push(step),
                                                i,
                                            ));
                                        }
                                        errors.push(m);
                                    },
                                }
                            },
                        },
                    }
                },
            }
            proof {
                let oc2 = oc.push(step);
                let f = frag_at(es, reg, oc2, i);
                let g = errs_at(es, reg, oc2, i);
                assert(out@ == old_out + f);
                assert(frags(es.take(i + 1), reg, oc2) =~= frags(es.take(i), reg, oc).push(f));
                frags(es.take(i), reg, oc).lemma_flatten_push(f);
                assert(out@ == output_of(es.take(i + 1), reg, oc2));
                let mv = |m: String| m@;
                if g.len() == 0 {
                    assert(errors@ == old_errs);
                    assert(errors@.map_values(mv) =~= old_errs.map_values(mv) + g);
                } else {
                    assert(errors@ == old_errs.push(errors@.last()));
                    assert(errors@.map_values(mv) =~= old_errs.map_values(mv) + g);
                }
                assert(err_frags(es.take(i + 1), reg, oc2) =~= err_frags(es.take(i), reg, oc).push(
                    g,
                ));
                err_frags(es.take(i), reg, oc).lemma_flatten_push(g);
                assert(errors@.map_values(mv) == errors_of(es.take(i + 1), reg, oc2));
                oc = oc2;
            }
            idx = idx + 1;
        }
        proof {
            assert(es.take(n as int) =~= es);
            assert(render_rel(
                self.exprs(),
                self.producers(),
                oc,
                out@,
                errors@.map_values(|m: String| m@),
            ));
        }
        (out, errors)
    }
}

} // verus!
