//! The evaluator: walks the semantic tree in source order, resolving each
//! value expression against the context built so far.
//!
//! Undefined-variable references are not errors: they resolve to an empty
//! default. The result of a whole evaluation run is pinned completely by
//! [`spec_eval_statements`] and [`spec_eval_source`]: identical input
//! always yields an identical context, or an identical error.

use vstd::prelude::*;

use crate::ast::{ApmlAst, AstExpansion, AstPart, AstSegment, ExpandKind, ExpandModel, PartModel,
    SegmentModel, StatementModel, spec_emit};
use crate::context::ApmlContext;
use crate::lst::{ApmlLst, spec_parse};
use crate::value::{ValueModel, VariableValue, value_concat, value_list};
use crate::ApmlError;

verus! {

/// A structurally invalid expansion form surviving to evaluation.
///
/// Defensive: the semantic trees this crate emits never produce it, so
/// evaluation of them always succeeds.
#[derive(Debug, Clone, Copy, PartialEq, Eq, Structural)]
pub enum EvalError {
    /// An expansion with no resolvable shape.
    InvalidExpansion,
}

// ---------------------------------------------------------------------
// Evaluation, in specification form
// ---------------------------------------------------------------------

/// The value an expansion contributes: the named variable's value (or
/// empty text) for a scalar read, its list coercion (or the empty list)
/// for an array read.
pub open spec fn spec_expand(m: Map<Seq<char>, ValueModel>, e: ExpandModel) -> ValueModel {
    match e.kind {
        ExpandKind::Scalar => if m.contains_key(e.name) {
            m[e.name]
        } else {
            ValueModel::Text(Seq::empty())
        },
        ExpandKind::Array => ValueModel::List(
            if m.contains_key(e.name) {
                value_list(m[e.name])
            } else {
                Seq::empty()
            },
        ),
    }
}

/// The value of one quoted-segment part.
pub open spec fn spec_eval_part(m: Map<Seq<char>, ValueModel>, p: PartModel) -> ValueModel {
    match p {
        PartModel::Literal(v) => ValueModel::Text(v),
        PartModel::Expansion(e) => spec_expand(m, e),
    }
}

/// The value of a sequence of quoted-segment parts, combined left to
/// right with [`value_concat`]; no parts yield empty text.
pub open spec fn spec_eval_parts(m: Map<Seq<char>, ValueModel>, ps: Seq<PartModel>) -> ValueModel
    decreases ps.len(),
{
    if ps.len() == 0 {
        ValueModel::Text(Seq::empty())
    } else if ps.len() == 1 {
        spec_eval_part(m, ps[0])
    } else {
        value_concat(spec_eval_parts(m, ps.drop_last()), spec_eval_part(m, ps.last()))
    }
}

/// The value of one segment of a value expression.
pub open spec fn spec_eval_segment(m: Map<Seq<char>, ValueModel>, s: SegmentModel) -> ValueModel {
    match s {
        SegmentModel::Literal(v) => ValueModel::Text(v),
        SegmentModel::Quoted(ps) => spec_eval_parts(m, ps),
        SegmentModel::Expansion(e) => spec_expand(m, e),
    }
}

/// The value of a statement's segments, combined left to right with
/// [`value_concat`]: the first segment's type fixes the result's type.
pub open spec fn spec_eval_segments(
    m: Map<Seq<char>, ValueModel>,
    segs: Seq<SegmentModel>,
) -> ValueModel
    decreases segs.len(),
{
    if segs.len() == 0 {
        ValueModel::Text(Seq::empty())
    } else if segs.len() == 1 {
        spec_eval_segment(m, segs[0])
    } else {
        value_concat(spec_eval_segments(m, segs.drop_last()), spec_eval_segment(m, segs.last()))
    }
}

/// The context after evaluating the statements in source order, starting
/// from the empty context; each statement's value is resolved against
/// the context of the statements before it, then written over any
/// earlier value of the same name.
pub open spec fn spec_eval_statements(stmts: Seq<StatementModel>) -> Map<Seq<char>, ValueModel>
    decreases stmts.len(),
{
    if stmts.len() == 0 {
        Map::empty()
    } else {
        let m = spec_eval_statements(stmts.drop_last());
        m.insert(stmts.last().name, spec_eval_segments(m, stmts.last().segments))
    }
}

/// The whole pipeline on a source text: the evaluated context, or the
/// first failing stage's error, unchanged.
pub open spec fn spec_eval_source(s: Seq<char>) -> Result<Map<Seq<char>, ValueModel>, ApmlError> {
    match spec_parse(s) {
        Ok(ns) => Ok(spec_eval_statements(spec_emit(ns))),
        Err(e) => Err(ApmlError::Parse(e)),
    }
}

// ---------------------------------------------------------------------
// Evaluation, executable
// ---------------------------------------------------------------------

fn expand(ctx: &ApmlContext, e: &AstExpansion) -> (r: VariableValue)
    requires
        ctx.wf(),
    ensures
        r@ == spec_expand(ctx@, e@),
{
    match e.kind {
        ExpandKind::Scalar => match ctx.get(e.name.as_str()) {
            Some(v) => v.clone(),
            None => VariableValue::default(),
        },
        ExpandKind::Array => match ctx.get(e.name.as_str()) {
            Some(v) => VariableValue::Array(v.as_array()),
            None => {
                let els: Vec<String> = Vec::new();
                proof {
                    assert(els.deep_view() =~= Seq::<Seq<char>>::empty());
                }
                VariableValue::Array(els)
            },
        },
    }
}

fn eval_part(ctx: &ApmlContext, p: &AstPart) -> (r: VariableValue)
    requires
        ctx.wf(),
    ensures
        r@ == spec_eval_part(ctx@, p@),
{
    match p {
        AstPart::Literal(v) => VariableValue::String(v.clone()),
        AstPart::Expansion(e) => expand(ctx, e),
    }
}

fn eval_parts(ctx: &ApmlContext, ps: &Vec<AstPart>) -> (r: VariableValue)
    requires
        ctx.wf(),
    ensures
        r@ == spec_eval_parts(ctx@, ps@.map_values(|p: AstPart| p@)),
{
    let ghost psm = ps@.map_values(|p: AstPart| p@);
    if ps.len() == 0 {
        return VariableValue::default();
    }
    let mut acc = eval_part(ctx, &ps[0]);
    proof {
        assert(psm.take(1).len() == 1);
        assert(psm.take(1)[0] == psm[0]);
    }
    let mut i: usize = 1;
    while i < ps.len()
        invariant
            ctx.wf(),
            1 <= i <= ps@.len(),
            psm == ps@.map_values(|p: AstPart| p@),
            psm.len() == ps@.len(),
            acc@ == spec_eval_parts(ctx@, psm.take(i as int)),
        decreases ps@.len() - i,
    {
        let v = eval_part(ctx, &ps[i]);
        acc = acc.concat(v);
        proof {
            assert(psm.take(i + 1).drop_last() =~= psm.take(i as int));
            assert(psm.take(i + 1).last() == psm[i as int]);
        }
        i += 1;
    }
    proof {
        assert(psm.take(ps@.len() as int) =~= psm);
    }
    acc
}

fn eval_segment(ctx: &ApmlContext, s: &AstSegment) -> (r: VariableValue)
    requires
        ctx.wf(),
    ensures
        r@ == spec_eval_segment(ctx@, s@),
{
    match s {
        AstSegment::Literal(v) => VariableValue::String(v.clone()),
        AstSegment::Quoted(ps) => eval_parts(ctx, ps),
        AstSegment::Expansion(e) => expand(ctx, e),
    }
}

fn eval_segments(ctx: &ApmlContext, segs: &Vec<AstSegment>) -> (r: VariableValue)
    requires
        ctx.wf(),
    ensures
        r@ == spec_eval_segments(ctx@, segs@.map_values(|s: AstSegment| s@)),
{
    let ghost sm = segs@.map_values(|s: AstSegment| s@);
    if segs.len() == 0 {
        return VariableValue::default();
    }
    let mut acc = eval_segment(ctx, &segs[0]);
    proof {
        assert(sm.take(1).len() == 1);
        assert(sm.take(1)[0] == sm[0]);
    }
    let mut i: usize = 1;
    while i < segs.len()
        invariant
            ctx.wf(),
            1 <= i <= segs@.len(),
            sm == segs@.map_values(|s: AstSegment| s@),
            sm.len() == segs@.len(),
            acc@ == spec_eval_segments(ctx@, sm.take(i as int)),
        decreases segs@.len() - i,
    {
        let v = eval_segment(ctx, &segs[i]);
        acc = acc.concat(v);
        proof {
            assert(sm.take(i + 1).drop_last() =~= sm.take(i as int));
            assert(sm.take(i + 1).last() == sm[i as int]);
        }
        i += 1;
    }
    proof {
        assert(sm.take(segs@.len() as int) =~= sm);
    }
    acc
}

impl ApmlContext {
    /// Evaluates a semantic tree, expanding variables statement by
    /// statement in source order. Never fails for the trees this crate
    /// emits.
    pub fn eval_ast(ast: &ApmlAst) -> (r: Result<Self, ApmlError>)
        ensures
            r is Ok,
            r matches Ok(c) ==> c@ == spec_eval_statements(ast@) && c.wf(),
    {
        let ghost stm = ast@;
        let mut ctx = ApmlContext::default();
        proof {
            assert(stm.take(0) =~= Seq::<StatementModel>::empty());
        }
        let mut i: usize = 0;
        while i < ast.statements.len()
            invariant
                i <= ast.statements@.len(),
                stm == ast.statements@.map_values(|s: crate::ast::AstStatement| s@),
                stm.len() == ast.statements@.len(),
                ctx.wf(),
                ctx@ == spec_eval_statements(stm.take(i as int)),
            decreases ast.statements@.len() - i,
        {
            let st = &ast.statements[i];
            let value = eval_segments(&ctx, &st.segments);
            ctx.insert(st.name.clone(), value);
            proof {
                assert(stm.take(i + 1).drop_last() =~= stm.take(i as int));
                assert(stm.take(i + 1).last() == stm[i as int]);
            }
            i += 1;
        }
        proof {
            assert(stm.take(ast.statements@.len() as int) =~= stm);
        }
        Ok(ctx)
    }

    /// Emits and evaluates a lossless tree.
    pub fn eval_lst(lst: &ApmlLst) -> (r: Result<Self, ApmlError>)
        ensures
            r is Ok,
            r matches Ok(c) ==> c@ == spec_eval_statements(spec_emit(lst@)) && c.wf(),
    {
        match ApmlAst::emit_from(lst) {
            Ok(ast) => Self::eval_ast(&ast),
            Err(e) => Err(ApmlError::Emit(e)),
        }
    }

    /// Parses and evaluates a source text: the whole pipeline.
    ///
    /// The result is completely determined by the text
    /// ([`spec_eval_source`]); on failure the first failing stage's
    /// error is returned unchanged and no context at all.
    pub fn eval_source(src: &str) -> (r: Result<Self, ApmlError>)
        ensures
            match r {
                Ok(c) => spec_eval_source(src@) == Ok::<_, ApmlError>(c@) && c.wf(),
                Err(e) => spec_eval_source(src@) == Err::<Map<Seq<char>, ValueModel>, _>(e),
            },
    {
        match ApmlLst::parse(src) {
            Ok(lst) => Self::eval_lst(&lst),
            Err(e) => Err(ApmlError::Parse(e)),
        }
    }
}

// ---------------------------------------------------------------------
// Laws
// ---------------------------------------------------------------------

/// Law: evaluation is deterministic. Two contexts evaluated from the
/// same source text model the same mapping.
pub proof fn lemma_eval_deterministic(s: Seq<char>, c1: ApmlContext, c2: ApmlContext)
    requires
        spec_eval_source(s) == Ok::<_, ApmlError>(c1@),
        spec_eval_source(s) == Ok::<_, ApmlError>(c2@),
    ensures
        c1@ == c2@,
{
}

/// Law: a name not present in a context expands to an empty default
/// rather than an error: empty text for a scalar read, the empty list
/// for an array read.
pub proof fn lemma_empty_default(m: Map<Seq<char>, ValueModel>, name: Seq<char>)
    requires
        !m.contains_key(name),
    ensures
        spec_expand(m, ExpandModel { kind: ExpandKind::Scalar, name }) == ValueModel::Text(
            Seq::<char>::empty(),
        ),
        spec_expand(m, ExpandModel { kind: ExpandKind::Array, name }) == ValueModel::List(
            Seq::<Seq<char>>::empty(),
        ),
{
}

/// Law: the last write wins. If the statement at `j` is the last one
/// assigning its name, the evaluated context holds for that name exactly
/// the value of that statement, resolved against the context of the
/// statements before it — so earlier assignments of the name stay
/// visible only to statements standing between them and `j`.
pub proof fn lemma_last_write_wins(stmts: Seq<StatementModel>, j: int)
    requires
        0 <= j < stmts.len(),
        forall|k: int| j < k < stmts.len() ==> stmts[k].name != stmts[j].name,
    ensures
        spec_eval_statements(stmts).contains_key(stmts[j].name),
        spec_eval_statements(stmts)[stmts[j].name] == spec_eval_segments(
            spec_eval_statements(stmts.take(j)),
            stmts[j].segments,
        ),
    decreases stmts.len(),
{
    if j == stmts.len() - 1 {
        assert(stmts.drop_last() =~= stmts.take(j));
    } else {
        assert(forall|k: int|
            j < k < stmts.len() - 1 ==> stmts.drop_last()[k].name != stmts.drop_last()[j].name);
        lemma_last_write_wins(stmts.drop_last(), j);
        assert(stmts.drop_last().take(j) =~= stmts.take(j));
        assert(stmts.drop_last()[j] == stmts[j]);
        assert(stmts.last().name != stmts[j].name);
    }
}

} // verus!
