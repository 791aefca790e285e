//! The semantic tree: assignment statements with formatting discarded.
//!
//! Emission walks a lossless tree, drops comments, whitespace and
//! line-continuation markers, and folds every remaining lexical unit into
//! an ordered list of value segments per statement. Its result is pinned
//! completely by [`spec_emit`].

use vstd::prelude::*;

use crate::lst::{
    ApmlLst, ExpansionKind, ExpansionModel, LstExpansion, LstNode, LstQuotedPart, LstToken,
    NodeModel, QuotedPartModel, TokenModel,
};
use crate::text::chars_to_string;

verus! {

/// A lossless-tree shape with no semantic counterpart.
///
/// The trees built by this crate's parser always have one, so emission
/// from them never fails; the kind exists as the middle stage of the
/// pipeline's error taxonomy.
#[derive(Debug, Clone, Copy, PartialEq, Eq, Structural)]
pub enum EmitError {
    /// An assignment node carries no value expression.
    MissingValue,
}

/// How an expansion reads the named variable.
#[derive(Debug, Clone, Copy, PartialEq, Eq, Structural)]
pub enum ExpandKind {
    /// `$NAME` or `${NAME}`: the variable's value itself.
    Scalar,
    /// `${NAME[@]}`: the variable's value read as a list.
    Array,
}

/// An expansion segment: a variable name and how to read it.
#[derive(Debug, Clone)]
pub struct AstExpansion {
    pub kind: ExpandKind,
    pub name: String,
}

/// A part of a quoted segment: literal text or an expansion.
#[derive(Debug, Clone)]
pub enum AstPart {
    Literal(String),
    Expansion(AstExpansion),
}

/// One segment of a statement's value expression.
#[derive(Debug, Clone)]
pub enum AstSegment {
    /// Literal text.
    Literal(String),
    /// A double-quoted region: its parts evaluate as one value.
    Quoted(Vec<AstPart>),
    /// An expansion.
    Expansion(AstExpansion),
}

/// One assignment statement: a variable name and its value expression.
#[derive(Debug, Clone)]
pub struct AstStatement {
    pub name: String,
    pub segments: Vec<AstSegment>,
}

/// A semantic tree: the assignment statements of one source file, in
/// source order.
#[derive(Debug, Clone)]
pub struct ApmlAst {
    pub statements: Vec<AstStatement>,
}

/// Model of an expansion segment.
pub ghost struct ExpandModel {
    pub kind: ExpandKind,
    pub name: Seq<char>,
}

/// Model of a quoted-segment part.
pub ghost enum PartModel {
    Literal(Seq<char>),
    Expansion(ExpandModel),
}

/// Model of a value segment.
pub ghost enum SegmentModel {
    Literal(Seq<char>),
    Quoted(Seq<PartModel>),
    Expansion(ExpandModel),
}

/// Model of an assignment statement.
pub ghost struct StatementModel {
    pub name: Seq<char>,
    pub segments: Seq<SegmentModel>,
}

impl View for AstExpansion {
    type V = ExpandModel;

    open spec fn view(&self) -> ExpandModel {
        ExpandModel { kind: self.kind, name: self.name@ }
    }
}

impl View for AstPart {
    type V = PartModel;

    open spec fn view(&self) -> PartModel {
        match self {
            AstPart::Literal(v) => PartModel::Literal(v@),
            AstPart::Expansion(e) => PartModel::Expansion(e@),
        }
    }
}

impl View for AstSegment {
    type V = SegmentModel;

    open spec fn view(&self) -> SegmentModel {
        match self {
            AstSegment::Literal(v) => SegmentModel::Literal(v@),
            AstSegment::Quoted(ps) => SegmentModel::Quoted(ps@.map_values(|p: AstPart| p@)),
            AstSegment::Expansion(e) => SegmentModel::Expansion(e@),
        }
    }
}

impl View for AstStatement {
    type V = StatementModel;

    open spec fn view(&self) -> StatementModel {
        StatementModel {
            name: self.name@,
            segments: self.segments@.map_values(|s: AstSegment| s@),
        }
    }
}

impl View for ApmlAst {
    type V = Seq<StatementModel>;

    open spec fn view(&self) -> Seq<StatementModel> {
        self.statements@.map_values(|s: AstStatement| s@)
    }
}

// ---------------------------------------------------------------------
// Emission, in specification form
// ---------------------------------------------------------------------

/// The semantic form of an expansion marker.
pub open spec fn emit_expansion(e: ExpansionModel) -> ExpandModel {
    ExpandModel {
        kind: if e.kind is BracedArray {
            ExpandKind::Array
        } else {
            ExpandKind::Scalar
        },
        name: e.name,
    }
}

/// The semantic parts of one quoted-region unit: a continuation
/// contributes nothing, an escape contributes its kept character.
pub open spec fn emit_qpart(p: QuotedPartModel) -> Seq<PartModel> {
    match p {
        QuotedPartModel::Literal(v) => seq![PartModel::Literal(v)],
        QuotedPartModel::Escaped(c) => seq![PartModel::Literal(seq![c])],
        QuotedPartModel::Continuation => Seq::empty(),
        QuotedPartModel::Expansion(e) => seq![PartModel::Expansion(emit_expansion(e))],
    }
}

/// The semantic parts of a quoted region.
pub open spec fn emit_qparts(ps: Seq<QuotedPartModel>) -> Seq<PartModel>
    decreases ps.len(),
{
    if ps.len() == 0 {
        Seq::empty()
    } else {
        emit_qparts(ps.drop_last()) + emit_qpart(ps.last())
    }
}

/// The semantic segments of one value token: a continuation contributes
/// nothing, single quotes contribute their literal content.
pub open spec fn emit_token(t: TokenModel) -> Seq<SegmentModel> {
    match t {
        TokenModel::Literal(v) => seq![SegmentModel::Literal(v)],
        TokenModel::Escaped(c) => seq![SegmentModel::Literal(seq![c])],
        TokenModel::Continuation => Seq::empty(),
        TokenModel::Quoted(ps) => seq![SegmentModel::Quoted(emit_qparts(ps))],
        TokenModel::SingleQuoted(v) => seq![SegmentModel::Literal(v)],
        TokenModel::Expansion(e) => seq![SegmentModel::Expansion(emit_expansion(e))],
    }
}

/// The semantic segments of an assignment's value tokens.
pub open spec fn emit_tokens(ts: Seq<TokenModel>) -> Seq<SegmentModel>
    decreases ts.len(),
{
    if ts.len() == 0 {
        Seq::empty()
    } else {
        emit_tokens(ts.drop_last()) + emit_token(ts.last())
    }
}

/// The statements of one source node: only assignments contribute.
pub open spec fn emit_node(n: NodeModel) -> Seq<StatementModel> {
    match n {
        NodeModel::Assignment(name, ts) => seq![
            StatementModel { name, segments: emit_tokens(ts) },
        ],
        _ => Seq::empty(),
    }
}

/// The whole emission: the statements of a lossless tree, in source
/// order.
pub open spec fn spec_emit(ns: Seq<NodeModel>) -> Seq<StatementModel>
    decreases ns.len(),
{
    if ns.len() == 0 {
        Seq::empty()
    } else {
        spec_emit(ns.drop_last()) + emit_node(ns.last())
    }
}

// ---------------------------------------------------------------------
// Emission, executable
// ---------------------------------------------------------------------

fn emit_expansion_exec(e: &LstExpansion) -> (r: AstExpansion)
    ensures
        r@ == emit_expansion(e@),
{
    let kind = match e.kind {
        ExpansionKind::BracedArray => ExpandKind::Array,
        _ => ExpandKind::Scalar,
    };
    AstExpansion { kind, name: chars_to_string(&e.name) }
}

fn char_to_string(c: char) -> (r: String)
    ensures
        r@ == seq![c],
{
    let mut v: Vec<char> = Vec::new();
    v.push(c);
    proof {
        assert(v@ =~= seq![c]);
    }
    chars_to_string(&v)
}

fn emit_qpart_exec(p: &LstQuotedPart) -> (r: Option<AstPart>)
    ensures
        match r {
            Some(part) => emit_qpart(p@) == seq![part@],
            None => emit_qpart(p@) == Seq::<PartModel>::empty(),
        },
{
    match p {
        LstQuotedPart::Literal(v) => Some(AstPart::Literal(chars_to_string(v))),
        LstQuotedPart::Escaped(c) => Some(AstPart::Literal(char_to_string(*c))),
        LstQuotedPart::Continuation => None,
        LstQuotedPart::Expansion(e) => Some(AstPart::Expansion(emit_expansion_exec(e))),
    }
}

fn emit_qparts_exec(ps: &Vec<LstQuotedPart>) -> (r: Vec<AstPart>)
    ensures
        r@.map_values(|p: AstPart| p@) == emit_qparts(ps@.map_values(|q: LstQuotedPart| q@)),
{
    let ghost psm = ps@.map_values(|q: LstQuotedPart| q@);
    let mut out: Vec<AstPart> = Vec::new();
    proof {
        assert(out@.map_values(|p: AstPart| p@) =~= emit_qparts(psm.take(0)));
    }
    let mut i: usize = 0;
    while i < ps.len()
        invariant
            i <= ps@.len(),
            psm == ps@.map_values(|q: LstQuotedPart| q@),
            psm.len() == ps@.len(),
            out@.map_values(|p: AstPart| p@) == emit_qparts(psm.take(i as int)),
        decreases ps@.len() - i,
    {
        let ghost prev = out@.map_values(|p: AstPart| p@);
        match emit_qpart_exec(&ps[i]) {
            Some(part) => {
                out.push(part);
                proof {
                    assert(out@.map_values(|p: AstPart| p@) =~= prev + seq![part@]);
                }
            },
            None => {},
        }
        proof {
            assert(psm.take(i + 1).drop_last() =~= psm.take(i as int));
            assert(psm.take(i + 1).last() == psm[i as int]);
            assert(out@.map_values(|p: AstPart| p@) =~= emit_qparts(psm.take(i + 1)));
        }
        i += 1;
    }
    proof {
        assert(psm.take(ps@.len() as int) =~= psm);
    }
    out
}

fn emit_token_exec(t: &LstToken) -> (r: Option<AstSegment>)
    ensures
        match r {
            Some(seg) => emit_token(t@) == seq![seg@],
            None => emit_token(t@) == Seq::<SegmentModel>::empty(),
        },
{
    match t {
        LstToken::Literal(v) => Some(AstSegment::Literal(chars_to_string(v))),
        LstToken::Escaped(c) => Some(AstSegment::Literal(char_to_string(*c))),
        LstToken::Continuation => None,
        LstToken::Quoted(ps) => Some(AstSegment::Quoted(emit_qparts_exec(ps))),
        LstToken::SingleQuoted(v) => Some(AstSegment::Literal(chars_to_string(v))),
        LstToken::Expansion(e) => Some(AstSegment::Expansion(emit_expansion_exec(e))),
    }
}

fn emit_tokens_exec(ts: &Vec<LstToken>) -> (r: Vec<AstSegment>)
    ensures
        r@.map_values(|s: AstSegment| s@) == emit_tokens(ts@.map_values(|t: LstToken| t@)),
{
    let ghost tsm = ts@.map_values(|t: LstToken| t@);
    let mut out: Vec<AstSegment> = Vec::new();
    proof {
        assert(out@.map_values(|s: AstSegment| s@) =~= emit_tokens(tsm.take(0)));
    }
    let mut i: usize = 0;
    while i < ts.len()
        invariant
            i <= ts@.len(),
            tsm == ts@.map_values(|t: LstToken| t@),
            tsm.len() == ts@.len(),
            out@.map_values(|s: AstSegment| s@) == emit_tokens(tsm.take(i as int)),
        decreases ts@.len() - i,
    {
        let ghost prev = out@.map_values(|s: AstSegment| s@);
        match emit_token_exec(&ts[i]) {
            Some(seg) => {
                out.push(seg);
                proof {
                    assert(out@.map_values(|s: AstSegment| s@) =~= prev + seq![seg@]);
                }
            },
            None => {},
        }
        proof {
            assert(tsm.take(i + 1).drop_last() =~= tsm.take(i as int));
            assert(tsm.take(i + 1).last() == tsm[i as int]);
            assert(out@.map_values(|s: AstSegment| s@) =~= emit_tokens(tsm.take(i + 1)));
        }
        i += 1;
    }
    proof {
        assert(tsm.take(ts@.len() as int) =~= tsm);
    }
    out
}

impl ApmlAst {
    /// Emits the semantic tree of a lossless tree.
    ///
    /// Every tree built by [`ApmlLst::parse`](crate::lst::ApmlLst::parse)
    /// has a semantic form, so this never fails; the result is exactly
    /// the statement list [`spec_emit`] describes.
    pub fn emit_from(lst: &ApmlLst) -> (r: Result<ApmlAst, EmitError>)
        ensures
            r is Ok,
            r matches Ok(ast) ==> ast@ == spec_emit(lst@),
    {
        let ghost nsm = lst.nodes@.map_values(|n: LstNode| n@);
        let mut statements: Vec<AstStatement> = Vec::new();
        proof {
            assert(statements@.map_values(|s: AstStatement| s@) =~= spec_emit(nsm.take(0)));
        }
        let mut i: usize = 0;
        while i < lst.nodes.len()
            invariant
                i <= lst.nodes@.len(),
                nsm == lst.nodes@.map_values(|n: LstNode| n@),
                nsm.len() == lst.nodes@.len(),
                statements@.map_values(|s: AstStatement| s@) == spec_emit(nsm.take(i as int)),
            decreases lst.nodes@.len() - i,
        {
            let ghost prev = statements@.map_values(|s: AstStatement| s@);
            match &lst.nodes[i] {
                LstNode::Assignment(a) => {
                    let name = chars_to_string(&a.name);
                    let segments = emit_tokens_exec(&a.tokens);
                    let st = AstStatement { name, segments };
                    statements.push(st);
                    proof {
                        assert(statements@.map_values(|s: AstStatement| s@) =~= prev + seq![st@]);
                    }
                },
                _ => {},
            }
            proof {
                assert(nsm.take(i + 1).drop_last() =~= nsm.take(i as int));
                assert(nsm.take(i + 1).last() == nsm[i as int]);
                assert(statements@.map_values(|s: AstStatement| s@) =~= spec_emit(nsm.take(i + 1)));
            }
            i += 1;
        }
        proof {
            assert(nsm.take(lst.nodes@.len() as int) =~= nsm);
        }
        Ok(ApmlAst { statements })
    }
}

/// Law: a line-continuation marker contributes nothing to the semantic
/// parts of a quoted region, wherever it stands; all other units keep
/// their characters.
pub proof fn lemma_continuation_drops_out(
    before: Seq<QuotedPartModel>,
    after: Seq<QuotedPartModel>,
)
    ensures
        emit_qparts(before + seq![QuotedPartModel::Continuation] + after) == emit_qparts(
            before + after,
        ),
    decreases after.len(),
{
    if after.len() == 0 {
        assert(before + seq![QuotedPartModel::Continuation] + after =~= before
            + seq![QuotedPartModel::Continuation]);
        assert(before + after =~= before);
        assert((before + seq![QuotedPartModel::Continuation]).drop_last() =~= before);
        assert((before + seq![QuotedPartModel::Continuation]).last()
            == QuotedPartModel::Continuation);
        assert(emit_qparts(before) + Seq::<PartModel>::empty() =~= emit_qparts(before));
    } else {
        lemma_continuation_drops_out(before, after.drop_last());
        assert((before + seq![QuotedPartModel::Continuation] + after).drop_last() =~= before
            + seq![QuotedPartModel::Continuation] + after.drop_last());
        assert((before + after).drop_last() =~= before + after.drop_last());
        assert((before + seq![QuotedPartModel::Continuation] + after).last() == after.last());
        assert((before + after).last() == after.last());
    }
}

} // verus!
