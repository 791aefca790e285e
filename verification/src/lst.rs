//! The lossless tree and its parser.
//!
//! The tree keeps every byte of the source text: comments, whitespace
//! runs, escape characters and line-continuation markers all appear in it,
//! so the original text can be reconstructed exactly ([`nodes_text`]).
//! Parsing is all-or-nothing: malformed syntax yields a [`ParseError`]
//! carrying the offending position, and no partial tree.
//!
//! The parser's result is pinned completely by the specification
//! functions ([`spec_parse`]): the same source always yields the same
//! tree, or the same error.

use vstd::prelude::*;

use crate::text::str_to_chars;

verus! {

broadcast use vstd::std_specs::vec::axiom_spec_len;

// ---------------------------------------------------------------------
// Character classes
// ---------------------------------------------------------------------

/// First character of an identifier: a letter or an underscore.
pub open spec fn is_name_start(c: char) -> bool {
    ('a' <= c && c <= 'z') || ('A' <= c && c <= 'Z') || c == '_'
}

/// Later character of an identifier: a letter, a digit or an underscore.
pub open spec fn is_name_char(c: char) -> bool {
    is_name_start(c) || ('0' <= c && c <= '9')
}

/// Horizontal whitespace outside an assignment value.
pub open spec fn is_blank(c: char) -> bool {
    c == ' ' || c == '\t'
}

/// A character that ends an unquoted literal run.
pub open spec fn is_lit_delim(c: char) -> bool {
    c == '\n' || c == '\\' || c == '"' || c == '\'' || c == '$'
}

/// A character that ends a literal run inside double quotes.
pub open spec fn is_qlit_delim(c: char) -> bool {
    c == '"' || c == '\\' || c == '$'
}

fn name_start(c: char) -> (r: bool)
    ensures
        r == is_name_start(c),
{
    ('a' <= c && c <= 'z') || ('A' <= c && c <= 'Z') || c == '_'
}

fn name_char(c: char) -> (r: bool)
    ensures
        r == is_name_char(c),
{
    name_start(c) || ('0' <= c && c <= '9')
}

fn blank(c: char) -> (r: bool)
    ensures
        r == is_blank(c),
{
    c == ' ' || c == '\t'
}

fn lit_delim(c: char) -> (r: bool)
    ensures
        r == is_lit_delim(c),
{
    c == '\n' || c == '\\' || c == '"' || c == '\'' || c == '$'
}

fn qlit_delim(c: char) -> (r: bool)
    ensures
        r == is_qlit_delim(c),
{
    c == '"' || c == '\\' || c == '$'
}

// ---------------------------------------------------------------------
// Errors
// ---------------------------------------------------------------------

/// The reason a source text was rejected.
#[derive(Debug, Clone, Copy, PartialEq, Eq, Structural)]
pub enum ParseErrorKind {
    /// A character that can start no node stands at top level.
    UnexpectedChar,
    /// An identifier is not followed by `=`.
    MissingEquals,
    /// An escape character stands at the end of the input.
    DanglingEscape,
    /// A quoted region is never closed.
    UnterminatedQuote,
    /// A `$` is not followed by a well-formed expansion.
    InvalidExpansion,
}

/// A lexical or syntactic failure, carrying the offending position
/// (an index into the character sequence of the source).
#[derive(Debug, Clone, Copy, PartialEq, Eq, Structural)]
pub struct ParseError {
    pub kind: ParseErrorKind,
    pub pos: usize,
}

// ---------------------------------------------------------------------
// Tree types and their models
// ---------------------------------------------------------------------

/// The lexical shape of an expansion marker.
#[derive(Debug, Clone, Copy, PartialEq, Eq, Structural)]
pub enum ExpansionKind {
    /// `$NAME`
    Bare,
    /// `${NAME}`
    Braced,
    /// `${NAME[@]}`
    BracedArray,
}

/// An expansion marker inside a value.
#[derive(Debug, Clone)]
pub struct LstExpansion {
    pub kind: ExpansionKind,
    pub name: Vec<char>,
}

/// One lexical unit inside a double-quoted region.
#[derive(Debug, Clone)]
pub enum LstQuotedPart {
    /// A run of plain characters.
    Literal(Vec<char>),
    /// An escape character followed by the kept character.
    Escaped(char),
    /// An escape character followed by a newline: a line continuation.
    Continuation,
    /// An expansion marker.
    Expansion(LstExpansion),
}

/// One lexical unit of an assignment value.
#[derive(Debug, Clone)]
pub enum LstToken {
    /// A run of plain characters.
    Literal(Vec<char>),
    /// An escape character followed by the kept character.
    Escaped(char),
    /// An escape character followed by a newline: a line continuation.
    Continuation,
    /// A double-quoted region.
    Quoted(Vec<LstQuotedPart>),
    /// A single-quoted, literal-only region.
    SingleQuoted(Vec<char>),
    /// An expansion marker.
    Expansion(LstExpansion),
}

/// One lexical unit of the source file.
#[derive(Debug, Clone)]
pub enum LstNode {
    /// A newline character.
    Newline,
    /// A run of horizontal whitespace.
    Spaces(Vec<char>),
    /// A comment: `#` followed by its text, up to the end of the line.
    Comment(Vec<char>),
    /// An assignment: identifier, `=`, value tokens.
    Assignment(LstAssignment),
}

/// An assignment statement with its exact lexical value tokens.
#[derive(Debug, Clone)]
pub struct LstAssignment {
    pub name: Vec<char>,
    pub tokens: Vec<LstToken>,
}

/// A lossless tree of one source file.
#[derive(Debug, Clone)]
pub struct ApmlLst {
    pub nodes: Vec<LstNode>,
}

/// Model of an expansion marker.
pub ghost struct ExpansionModel {
    pub kind: ExpansionKind,
    pub name: Seq<char>,
}

/// Model of a quoted-region part.
pub ghost enum QuotedPartModel {
    Literal(Seq<char>),
    Escaped(char),
    Continuation,
    Expansion(ExpansionModel),
}

/// Model of a value token.
pub ghost enum TokenModel {
    Literal(Seq<char>),
    Escaped(char),
    Continuation,
    Quoted(Seq<QuotedPartModel>),
    SingleQuoted(Seq<char>),
    Expansion(ExpansionModel),
}

/// Model of a source node.
pub ghost enum NodeModel {
    Newline,
    Spaces(Seq<char>),
    Comment(Seq<char>),
    Assignment(Seq<char>, Seq<TokenModel>),
}

impl View for LstExpansion {
    type V = ExpansionModel;

    open spec fn view(&self) -> ExpansionModel {
        ExpansionModel { kind: self.kind, name: self.name@ }
    }
}

impl View for LstQuotedPart {
    type V = QuotedPartModel;

    open spec fn view(&self) -> QuotedPartModel {
        match self {
            LstQuotedPart::Literal(v) => QuotedPartModel::Literal(v@),
            LstQuotedPart::Escaped(c) => QuotedPartModel::Escaped(*c),
            LstQuotedPart::Continuation => QuotedPartModel::Continuation,
            LstQuotedPart::Expansion(e) => QuotedPartModel::Expansion(e@),
        }
    }
}

impl View for LstToken {
    type V = TokenModel;

    open spec fn view(&self) -> TokenModel {
        match self {
            LstToken::Literal(v) => TokenModel::Literal(v@),
            LstToken::Escaped(c) => TokenModel::Escaped(*c),
            LstToken::Continuation => TokenModel::Continuation,
            LstToken::Quoted(ps) => TokenModel::Quoted(ps@.map_values(|p: LstQuotedPart| p@)),
            LstToken::SingleQuoted(v) => TokenModel::SingleQuoted(v@),
            LstToken::Expansion(e) => TokenModel::Expansion(e@),
        }
    }
}

impl View for LstNode {
    type V = NodeModel;

    open spec fn view(&self) -> NodeModel {
        match self {
            LstNode::Newline => NodeModel::Newline,
            LstNode::Spaces(v) => NodeModel::Spaces(v@),
            LstNode::Comment(v) => NodeModel::Comment(v@),
            LstNode::Assignment(a) => NodeModel::Assignment(
                a.name@,
                a.tokens@.map_values(|t: LstToken| t@),
            ),
        }
    }
}

impl View for ApmlLst {
    type V = Seq<NodeModel>;

    open spec fn view(&self) -> Seq<NodeModel> {
        self.nodes@.map_values(|n: LstNode| n@)
    }
}

// ---------------------------------------------------------------------
// Exact source text of a tree
// ---------------------------------------------------------------------

/// The exact source characters of an expansion marker.
pub open spec fn expansion_text(e: ExpansionModel) -> Seq<char> {
    match e.kind {
        ExpansionKind::Bare => seq!['$'] + e.name,
        ExpansionKind::Braced => seq!['$', '{'] + e.name + seq!['}'],
        ExpansionKind::BracedArray => seq!['$', '{'] + e.name + seq!['[', '@', ']', '}'],
    }
}

/// The exact source characters of a quoted-region part.
pub open spec fn qpart_text(p: QuotedPartModel) -> Seq<char> {
    match p {
        QuotedPartModel::Literal(v) => v,
        QuotedPartModel::Escaped(c) => seq!['\\', c],
        QuotedPartModel::Continuation => seq!['\\', '\n'],
        QuotedPartModel::Expansion(e) => expansion_text(e),
    }
}

/// The exact source characters of a sequence of quoted-region parts.
pub open spec fn qparts_text(ps: Seq<QuotedPartModel>) -> Seq<char>
    decreases ps.len(),
{
    if ps.len() == 0 {
        Seq::empty()
    } else {
        qpart_text(ps[0]) + qparts_text(ps.drop_first())
    }
}

/// The exact source characters of a value token.
pub open spec fn token_text(t: TokenModel) -> Seq<char> {
    match t {
        TokenModel::Literal(v) => v,
        TokenModel::Escaped(c) => seq!['\\', c],
        TokenModel::Continuation => seq!['\\', '\n'],
        TokenModel::Quoted(ps) => seq!['"'] + qparts_text(ps) + seq!['"'],
        TokenModel::SingleQuoted(v) => seq!['\''] + v + seq!['\''],
        TokenModel::Expansion(e) => expansion_text(e),
    }
}

/// The exact source characters of a sequence of value tokens.
pub open spec fn tokens_text(ts: Seq<TokenModel>) -> Seq<char>
    decreases ts.len(),
{
    if ts.len() == 0 {
        Seq::empty()
    } else {
        token_text(ts[0]) + tokens_text(ts.drop_first())
    }
}

/// The exact source characters of a source node.
pub open spec fn node_text(n: NodeModel) -> Seq<char> {
    match n {
        NodeModel::Newline => seq!['\n'],
        NodeModel::Spaces(v) => v,
        NodeModel::Comment(v) => seq!['#'] + v,
        NodeModel::Assignment(name, ts) => name + seq!['='] + tokens_text(ts),
    }
}

/// The exact source characters of a sequence of nodes: the whole file.
pub open spec fn nodes_text(ns: Seq<NodeModel>) -> Seq<char>
    decreases ns.len(),
{
    if ns.len() == 0 {
        Seq::empty()
    } else {
        node_text(ns[0]) + nodes_text(ns.drop_first())
    }
}

// ---------------------------------------------------------------------
// The parser, in specification form
// ---------------------------------------------------------------------

/// End of the identifier run starting at `i`.
pub open spec fn scan_name_end(s: Seq<char>, i: int) -> int
    decreases s.len() - i when 0 <= i <= s.len()
{
    if i < s.len() && is_name_char(s[i]) {
        scan_name_end(s, i + 1)
    } else {
        i
    }
}

/// End of the blank run starting at `i`.
pub open spec fn scan_blank_end(s: Seq<char>, i: int) -> int
    decreases s.len() - i when 0 <= i <= s.len()
{
    if i < s.len() && is_blank(s[i]) {
        scan_blank_end(s, i + 1)
    } else {
        i
    }
}

/// Position of the next newline at or after `i`, or the end of the input.
pub open spec fn scan_line_end(s: Seq<char>, i: int) -> int
    decreases s.len() - i when 0 <= i <= s.len()
{
    if i < s.len() && s[i] != '\n' {
        scan_line_end(s, i + 1)
    } else {
        i
    }
}

/// End of the unquoted literal run starting at `i`.
pub open spec fn scan_lit_end(s: Seq<char>, i: int) -> int
    decreases s.len() - i when 0 <= i <= s.len()
{
    if i < s.len() && !is_lit_delim(s[i]) {
        scan_lit_end(s, i + 1)
    } else {
        i
    }
}

/// End of the literal run inside double quotes starting at `i`.
pub open spec fn scan_qlit_end(s: Seq<char>, i: int) -> int
    decreases s.len() - i when 0 <= i <= s.len()
{
    if i < s.len() && !is_qlit_delim(s[i]) {
        scan_qlit_end(s, i + 1)
    } else {
        i
    }
}

/// Position of the next single quote at or after `i`, or the end of the
/// input.
pub open spec fn scan_squote_end(s: Seq<char>, i: int) -> int
    decreases s.len() - i when 0 <= i <= s.len()
{
    if i < s.len() && s[i] != '\'' {
        scan_squote_end(s, i + 1)
    } else {
        i
    }
}

/// Parses the expansion marker whose `$` stands at `i`.
pub open spec fn sp_expansion(s: Seq<char>, i: int) -> Result<(ExpansionModel, int), ParseError> {
    if i + 1 < s.len() && is_name_start(s[i + 1]) {
        let j = scan_name_end(s, i + 1);
        Ok((ExpansionModel { kind: ExpansionKind::Bare, name: s.subrange(i + 1, j) }, j))
    } else if i + 2 < s.len() && s[i + 1] == '{' && is_name_start(s[i + 2]) {
        let j = scan_name_end(s, i + 2);
        if j < s.len() && s[j] == '}' {
            Ok((ExpansionModel { kind: ExpansionKind::Braced, name: s.subrange(i + 2, j) }, j + 1))
        } else if j + 3 < s.len() && s[j] == '[' && s[j + 1] == '@' && s[j + 2] == ']' && s[j + 3]
            == '}' {
            Ok(
                (
                    ExpansionModel { kind: ExpansionKind::BracedArray, name: s.subrange(i + 2, j) },
                    j + 4,
                ),
            )
        } else {
            Err(ParseError { kind: ParseErrorKind::InvalidExpansion, pos: i as usize })
        }
    } else {
        Err(ParseError { kind: ParseErrorKind::InvalidExpansion, pos: i as usize })
    }
}

/// Parses one part of a double-quoted region at `i` (not a closing
/// quote).
pub open spec fn sp_qpart(s: Seq<char>, i: int) -> Result<(QuotedPartModel, int), ParseError> {
    if s[i] == '\\' {
        if i + 1 < s.len() {
            if s[i + 1] == '\n' {
                Ok((QuotedPartModel::Continuation, i + 2))
            } else {
                Ok((QuotedPartModel::Escaped(s[i + 1]), i + 2))
            }
        } else {
            Err(ParseError { kind: ParseErrorKind::DanglingEscape, pos: i as usize })
        }
    } else if s[i] == '$' {
        match sp_expansion(s, i) {
            Ok((e, j)) => Ok((QuotedPartModel::Expansion(e), j)),
            Err(e) => Err(e),
        }
    } else {
        Ok((QuotedPartModel::Literal(s.subrange(i, scan_qlit_end(s, i))), scan_qlit_end(s, i)))
    }
}

/// Parses the parts of a double-quoted region from `i` up to its closing
/// quote; `qpos` is the opening quote, reported when the region never
/// closes. The guard on the recursion is never reached: every part
/// consumes at least one character.
pub open spec fn sp_quoted(s: Seq<char>, qpos: int, i: int) -> Result<
    (Seq<QuotedPartModel>, int),
    ParseError,
>
    decreases s.len() - i when 0 <= i <= s.len()
{
    if i >= s.len() {
        Err(ParseError { kind: ParseErrorKind::UnterminatedQuote, pos: qpos as usize })
    } else if s[i] == '"' {
        Ok((Seq::empty(), i + 1))
    } else {
        match sp_qpart(s, i) {
            Err(e) => Err(e),
            Ok((p, j)) => if i < j <= s.len() {
                match sp_quoted(s, qpos, j) {
                    Err(e) => Err(e),
                    Ok((ps, k)) => Ok((seq![p] + ps, k)),
                }
            } else {
                Err(ParseError { kind: ParseErrorKind::UnterminatedQuote, pos: qpos as usize })
            },
        }
    }
}

/// Parses one value token at `i` (not a newline, not the end).
pub open spec fn sp_token(s: Seq<char>, i: int) -> Result<(TokenModel, int), ParseError> {
    if s[i] == '\\' {
        if i + 1 < s.len() {
            if s[i + 1] == '\n' {
                Ok((TokenModel::Continuation, i + 2))
            } else {
                Ok((TokenModel::Escaped(s[i + 1]), i + 2))
            }
        } else {
            Err(ParseError { kind: ParseErrorKind::DanglingEscape, pos: i as usize })
        }
    } else if s[i] == '"' {
        match sp_quoted(s, i, i + 1) {
            Ok((ps, k)) => Ok((TokenModel::Quoted(ps), k)),
            Err(e) => Err(e),
        }
    } else if s[i] == '\'' {
        let j = scan_squote_end(s, i + 1);
        if j < s.len() {
            Ok((TokenModel::SingleQuoted(s.subrange(i + 1, j)), j + 1))
        } else {
            Err(ParseError { kind: ParseErrorKind::UnterminatedQuote, pos: i as usize })
        }
    } else if s[i] == '$' {
        match sp_expansion(s, i) {
            Ok((e, j)) => Ok((TokenModel::Expansion(e), j)),
            Err(e) => Err(e),
        }
    } else {
        Ok((TokenModel::Literal(s.subrange(i, scan_lit_end(s, i))), scan_lit_end(s, i)))
    }
}

/// Parses the value tokens of one assignment, from `i` up to the next
/// newline or the end of the input. The guard on the recursion is never
/// reached: every token consumes at least one character.
pub open spec fn sp_tokens(s: Seq<char>, i: int) -> Result<(Seq<TokenModel>, int), ParseError>
    decreases s.len() - i when 0 <= i <= s.len()
{
    if i >= s.len() || s[i] == '\n' {
        Ok((Seq::empty(), i))
    } else {
        match sp_token(s, i) {
            Err(e) => Err(e),
            Ok((t, j)) => if i < j <= s.len() {
                match sp_tokens(s, j) {
                    Err(e) => Err(e),
                    Ok((ts, k)) => Ok((seq![t] + ts, k)),
                }
            } else {
                Err(ParseError { kind: ParseErrorKind::UnexpectedChar, pos: i as usize })
            },
        }
    }
}

/// Parses one source node at `i` (with `i` inside the input).
pub open spec fn sp_node(s: Seq<char>, i: int) -> Result<(NodeModel, int), ParseError> {
    if s[i] == '\n' {
        Ok((NodeModel::Newline, i + 1))
    } else if s[i] == '#' {
        Ok((NodeModel::Comment(s.subrange(i + 1, scan_line_end(s, i + 1))), scan_line_end(s, i + 1)))
    } else if is_blank(s[i]) {
        Ok((NodeModel::Spaces(s.subrange(i, scan_blank_end(s, i))), scan_blank_end(s, i)))
    } else if is_name_start(s[i]) {
        let j = scan_name_end(s, i);
        if j < s.len() && s[j] == '=' {
            match sp_tokens(s, j + 1) {
                Err(e) => Err(e),
                Ok((ts, k)) => Ok((NodeModel::Assignment(s.subrange(i, j), ts), k)),
            }
        } else {
            Err(ParseError { kind: ParseErrorKind::MissingEquals, pos: j as usize })
        }
    } else {
        Err(ParseError { kind: ParseErrorKind::UnexpectedChar, pos: i as usize })
    }
}

/// Parses the nodes of a source file from `i` to the end of the input.
/// The guard on the recursion is never reached: every node consumes at
/// least one character.
pub open spec fn sp_nodes(s: Seq<char>, i: int) -> Result<Seq<NodeModel>, ParseError>
    decreases s.len() - i when 0 <= i <= s.len()
{
    if i >= s.len() {
        Ok(Seq::empty())
    } else {
        match sp_node(s, i) {
            Err(e) => Err(e),
            Ok((n, j)) => if i < j <= s.len() {
                match sp_nodes(s, j) {
                    Err(e) => Err(e),
                    Ok(ns) => Ok(seq![n] + ns),
                }
            } else {
                Err(ParseError { kind: ParseErrorKind::UnexpectedChar, pos: i as usize })
            },
        }
    }
}

/// The whole parse of a source text: the nodes of its lossless tree, or
/// the first error.
pub open spec fn spec_parse(s: Seq<char>) -> Result<Seq<NodeModel>, ParseError> {
    sp_nodes(s, 0)
}

// ---------------------------------------------------------------------
// The parser, executable
// ---------------------------------------------------------------------

fn scan_name(s: &Vec<char>, i: usize) -> (r: usize)
    requires
        i <= s@.len(),
    ensures
        r == scan_name_end(s@, i as int),
        i <= r <= s@.len(),
        i < s@.len() && is_name_char(s@[i as int]) ==> i < r,
    decreases s@.len() - i,
{
    if i < s.len() && name_char(s[i]) {
        scan_name(s, i + 1)
    } else {
        i
    }
}

fn scan_blank(s: &Vec<char>, i: usize) -> (r: usize)
    requires
        i <= s@.len(),
    ensures
        r == scan_blank_end(s@, i as int),
        i <= r <= s@.len(),
        i < s@.len() && is_blank(s@[i as int]) ==> i < r,
    decreases s@.len() - i,
{
    if i < s.len() && blank(s[i]) {
        scan_blank(s, i + 1)
    } else {
        i
    }
}

fn scan_line(s: &Vec<char>, i: usize) -> (r: usize)
    requires
        i <= s@.len(),
    ensures
        r == scan_line_end(s@, i as int),
        i <= r <= s@.len(),
    decreases s@.len() - i,
{
    if i < s.len() && s[i] != '\n' {
        scan_line(s, i + 1)
    } else {
        i
    }
}

fn scan_lit(s: &Vec<char>, i: usize) -> (r: usize)
    requires
        i <= s@.len(),
    ensures
        r == scan_lit_end(s@, i as int),
        i <= r <= s@.len(),
        i < s@.len() && !is_lit_delim(s@[i as int]) ==> i < r,
    decreases s@.len() - i,
{
    if i < s.len() && !lit_delim(s[i]) {
        scan_lit(s, i + 1)
    } else {
        i
    }
}

fn scan_qlit(s: &Vec<char>, i: usize) -> (r: usize)
    requires
        i <= s@.len(),
    ensures
        r == scan_qlit_end(s@, i as int),
        i <= r <= s@.len(),
        i < s@.len() && !is_qlit_delim(s@[i as int]) ==> i < r,
    decreases s@.len() - i,
{
    if i < s.len() && !qlit_delim(s[i]) {
        scan_qlit(s, i + 1)
    } else {
        i
    }
}

fn scan_squote(s: &Vec<char>, i: usize) -> (r: usize)
    requires
        i <= s@.len(),
    ensures
        r == scan_squote_end(s@, i as int),
        i <= r <= s@.len(),
    decreases s@.len() - i,
{
    if i < s.len() && s[i] != '\'' {
        scan_squote(s, i + 1)
    } else {
        i
    }
}

/// Copies the characters of `s` between `a` and `b`.
fn copy_range(s: &Vec<char>, a: usize, b: usize) -> (r: Vec<char>)
    requires
        a <= b <= s@.len(),
    ensures
        r@ == s@.subrange(a as int, b as int),
{
    let mut out: Vec<char> = Vec::new();
    let mut k = a;
    while k < b
        invariant
            a <= k <= b <= s@.len(),
            out@ == s@.subrange(a as int, k as int),
        decreases b - k,
    {
        out.push(s[k]);
        proof {
            assert(out@ =~= s@.subrange(a as int, k + 1));
        }
        k += 1;
    }
    out
}

fn parse_expansion(s: &Vec<char>, i: usize) -> (r: Result<(LstExpansion, usize), ParseError>)
    requires
        i < s@.len(),
    ensures
        match r {
            Ok((e, j)) => sp_expansion(s@, i as int) == Ok::<_, ParseError>((e@, j as int)) && i < j <= s@.len(),
            Err(e) => sp_expansion(s@, i as int) == Err::<(ExpansionModel, int), _>(e),
        },
{
    if s.len() - i > 1 && name_start(s[i + 1]) {
        let j = scan_name(s, i + 1);
        let name = copy_range(s, i + 1, j);
        Ok((LstExpansion { kind: ExpansionKind::Bare, name }, j))
    } else if s.len() - i > 2 && s[i + 1] == '{' && name_start(s[i + 2]) {
        let j = scan_name(s, i + 2);
        if j < s.len() && s[j] == '}' {
            let name = copy_range(s, i + 2, j);
            Ok((LstExpansion { kind: ExpansionKind::Braced, name }, j + 1))
        } else if s.len() - j > 3 && s[j] == '[' && s[j + 1] == '@' && s[j + 2] == ']' && s[j + 3]
            == '}' {
            let name = copy_range(s, i + 2, j);
            Ok((LstExpansion { kind: ExpansionKind::BracedArray, name }, j + 4))
        } else {
            Err(ParseError { kind: ParseErrorKind::InvalidExpansion, pos: i })
        }
    } else {
        Err(ParseError { kind: ParseErrorKind::InvalidExpansion, pos: i })
    }
}

fn parse_qpart(s: &Vec<char>, i: usize) -> (r: Result<(LstQuotedPart, usize), ParseError>)
    requires
        i < s@.len(),
        s@[i as int] != '"',
    ensures
        match r {
            Ok((p, j)) => sp_qpart(s@, i as int) == Ok::<_, ParseError>((p@, j as int)) && i < j <= s@.len(),
            Err(e) => sp_qpart(s@, i as int) == Err::<(QuotedPartModel, int), _>(e),
        },
{
    proof {
        assert(s.len() == s@.len());
    }
    if s[i] == '\\' {
        if s.len() - i > 1 {
            if s[i + 1] == '\n' {
                Ok((LstQuotedPart::Continuation, i + 2))
            } else {
                Ok((LstQuotedPart::Escaped(s[i + 1]), i + 2))
            }
        } else {
            Err(ParseError { kind: ParseErrorKind::DanglingEscape, pos: i })
        }
    } else if s[i] == '$' {
        match parse_expansion(s, i) {
            Ok((e, j)) => Ok((LstQuotedPart::Expansion(e), j)),
            Err(e) => Err(e),
        }
    } else {
        let j = scan_qlit(s, i);
        let v = copy_range(s, i, j);
        Ok((LstQuotedPart::Literal(v), j))
    }
}

fn parse_quoted(s: &Vec<char>, qpos: usize, i: usize) -> (r: Result<
    (Vec<LstQuotedPart>, usize),
    ParseError,
>)
    requires
        i <= s@.len(),
    ensures
        match r {
            Ok((ps, k)) => sp_quoted(s@, qpos as int, i as int) == Ok::<_, ParseError>(
                (ps@.map_values(|p: LstQuotedPart| p@), k as int),
            ) && i < k <= s@.len(),
            Err(e) => sp_quoted(s@, qpos as int, i as int) == Err::<(Seq<QuotedPartModel>, int), _>(e),
        },
    decreases s@.len() - i,
{
    if i >= s.len() {
        return Err(ParseError { kind: ParseErrorKind::UnterminatedQuote, pos: qpos });
    }
    if s[i] == '"' {
        let ps: Vec<LstQuotedPart> = Vec::new();
        proof {
            assert(ps@.map_values(|p: LstQuotedPart| p@) =~= Seq::<QuotedPartModel>::empty());
        }
        return Ok((ps, i + 1));
    }
    match parse_qpart(s, i) {
        Err(e) => Err(e),
        Ok((p, j)) => match parse_quoted(s, qpos, j) {
            Err(e) => Err(e),
            Ok((mut ps, k)) => {
                let ghost tail = ps@.map_values(|p: LstQuotedPart| p@);
                ps.insert(0, p);
                proof {
                    assert(ps@.map_values(|p: LstQuotedPart| p@) =~= seq![p@] + tail);
                }
                Ok((ps, k))
            },
        },
    }
}

fn parse_token(s: &Vec<char>, i: usize) -> (r: Result<(LstToken, usize), ParseError>)
    requires
        i < s@.len(),
        s@[i as int] != '\n',
    ensures
        match r {
            Ok((t, j)) => sp_token(s@, i as int) == Ok::<_, ParseError>((t@, j as int)) && i < j <= s@.len(),
            Err(e) => sp_token(s@, i as int) == Err::<(TokenModel, int), _>(e),
        },
{
    proof {
        assert(s.len() == s@.len());
    }
    if s[i] == '\\' {
        if s.len() - i > 1 {
            if s[i + 1] == '\n' {
                Ok((LstToken::Continuation, i + 2))
            } else {
                Ok((LstToken::Escaped(s[i + 1]), i + 2))
            }
        } else {
            Err(ParseError { kind: ParseErrorKind::DanglingEscape, pos: i })
        }
    } else if s[i] == '"' {
        match parse_quoted(s, i, i + 1) {
            Ok((ps, k)) => Ok((LstToken::Quoted(ps), k)),
            Err(e) => Err(e),
        }
    } else if s[i] == '\'' {
        let j = scan_squote(s, i + 1);
        if j < s.len() {
            let v = copy_range(s, i + 1, j);
            Ok((LstToken::SingleQuoted(v), j + 1))
        } else {
            Err(ParseError { kind: ParseErrorKind::UnterminatedQuote, pos: i })
        }
    } else if s[i] == '$' {
        match parse_expansion(s, i) {
            Ok((e, j)) => Ok((LstToken::Expansion(e), j)),
            Err(e) => Err(e),
        }
    } else {
        let j = scan_lit(s, i);
        let v = copy_range(s, i, j);
        Ok((LstToken::Literal(v), j))
    }
}

fn parse_tokens(s: &Vec<char>, i: usize) -> (r: Result<(Vec<LstToken>, usize), ParseError>)
    requires
        i <= s@.len(),
    ensures
        match r {
            Ok((ts, k)) => sp_tokens(s@, i as int) == Ok::<_, ParseError>(
                (ts@.map_values(|t: LstToken| t@), k as int),
            ) && i <= k <= s@.len(),
            Err(e) => sp_tokens(s@, i as int) == Err::<(Seq<TokenModel>, int), _>(e),
        },
    decreases s@.len() - i,
{
    if i >= s.len() || s[i] == '\n' {
        let ts: Vec<LstToken> = Vec::new();
        proof {
            assert(ts@.map_values(|t: LstToken| t@) =~= Seq::<TokenModel>::empty());
        }
        return Ok((ts, i));
    }
    match parse_token(s, i) {
        Err(e) => Err(e),
        Ok((t, j)) => match parse_tokens(s, j) {
            Err(e) => Err(e),
            Ok((mut ts, k)) => {
                let ghost tail = ts@.map_values(|t: LstToken| t@);
                ts.insert(0, t);
                proof {
                    assert(ts@.map_values(|t: LstToken| t@) =~= seq![t@] + tail);
                }
                Ok((ts, k))
            },
        },
    }
}

fn parse_node(s: &Vec<char>, i: usize) -> (r: Result<(LstNode, usize), ParseError>)
    requires
        i < s@.len(),
    ensures
        match r {
            Ok((n, j)) => sp_node(s@, i as int) == Ok::<_, ParseError>((n@, j as int)) && i < j <= s@.len(),
            Err(e) => sp_node(s@, i as int) == Err::<(NodeModel, int), _>(e),
        },
{
    proof {
        assert(s.len() == s@.len());
    }
    if s[i] == '\n' {
        Ok((LstNode::Newline, i + 1))
    } else if s[i] == '#' {
        let j = scan_line(s, i + 1);
        let v = copy_range(s, i + 1, j);
        Ok((LstNode::Comment(v), j))
    } else if blank(s[i]) {
        let j = scan_blank(s, i);
        let v = copy_range(s, i, j);
        Ok((LstNode::Spaces(v), j))
    } else if name_start(s[i]) {
        let j = scan_name(s, i);
        if j < s.len() && s[j] == '=' {
            match parse_tokens(s, j + 1) {
                Err(e) => Err(e),
                Ok((ts, k)) => {
                    let name = copy_range(s, i, j);
                    Ok((LstNode::Assignment(LstAssignment { name, tokens: ts }), k))
                },
            }
        } else {
            Err(ParseError { kind: ParseErrorKind::MissingEquals, pos: j })
        }
    } else {
        Err(ParseError { kind: ParseErrorKind::UnexpectedChar, pos: i })
    }
}

fn parse_nodes(s: &Vec<char>, i: usize) -> (r: Result<Vec<LstNode>, ParseError>)
    requires
        i <= s@.len(),
    ensures
        match r {
            Ok(ns) => sp_nodes(s@, i as int) == Ok::<_, ParseError>(ns@.map_values(|n: LstNode| n@)),
            Err(e) => sp_nodes(s@, i as int) == Err::<Seq<NodeModel>, _>(e),
        },
    decreases s@.len() - i,
{
    if i >= s.len() {
        let ns: Vec<LstNode> = Vec::new();
        proof {
            assert(ns@.map_values(|n: LstNode| n@) =~= Seq::<NodeModel>::empty());
        }
        return Ok(ns);
    }
    match parse_node(s, i) {
        Err(e) => Err(e),
        Ok((n, j)) => match parse_nodes(s, j) {
            Err(e) => Err(e),
            Ok(mut ns) => {
                let ghost tail = ns@.map_values(|n: LstNode| n@);
                ns.insert(0, n);
                proof {
                    assert(ns@.map_values(|n: LstNode| n@) =~= seq![n@] + tail);
                }
                Ok(ns)
            },
        },
    }
}

impl ApmlLst {
    /// Parses a source text into its lossless tree.
    ///
    /// The result is completely determined by the text: it is the tree
    /// [`spec_parse`] describes, or the error that function describes,
    /// and parsing is all-or-nothing.
    pub fn parse(src: &str) -> (r: Result<ApmlLst, ParseError>)
        ensures
            match r {
                Ok(t) => spec_parse(src@) == Ok::<_, ParseError>(t@),
                Err(e) => spec_parse(src@) == Err::<Seq<NodeModel>, _>(e),
            },
    {
        let chars = str_to_chars(src);
        match parse_nodes(&chars, 0) {
            Ok(nodes) => Ok(ApmlLst { nodes }),
            Err(e) => Err(e),
        }
    }
}

// ---------------------------------------------------------------------
// The lossless law: a parsed tree reconstructs its source exactly
// ---------------------------------------------------------------------

proof fn lemma_scan_name_bounds(s: Seq<char>, i: int)
    requires
        0 <= i <= s.len(),
    ensures
        i <= scan_name_end(s, i) <= s.len(),
        i < s.len() && is_name_char(s[i]) ==> i < scan_name_end(s, i),
    decreases s.len() - i,
{
    if i < s.len() && is_name_char(s[i]) {
        lemma_scan_name_bounds(s, i + 1);
    }
}

proof fn lemma_scan_blank_bounds(s: Seq<char>, i: int)
    requires
        0 <= i <= s.len(),
    ensures
        i <= scan_blank_end(s, i) <= s.len(),
        i < s.len() && is_blank(s[i]) ==> i < scan_blank_end(s, i),
    decreases s.len() - i,
{
    if i < s.len() && is_blank(s[i]) {
        lemma_scan_blank_bounds(s, i + 1);
    }
}

proof fn lemma_scan_line_bounds(s: Seq<char>, i: int)
    requires
        0 <= i <= s.len(),
    ensures
        i <= scan_line_end(s, i) <= s.len(),
        scan_line_end(s, i) == s.len() || s[scan_line_end(s, i)] == '\n',
    decreases s.len() - i,
{
    if i < s.len() && s[i] != '\n' {
        lemma_scan_line_bounds(s, i + 1);
    }
}

proof fn lemma_scan_lit_bounds(s: Seq<char>, i: int)
    requires
        0 <= i <= s.len(),
    ensures
        i <= scan_lit_end(s, i) <= s.len(),
        i < s.len() && !is_lit_delim(s[i]) ==> i < scan_lit_end(s, i),
    decreases s.len() - i,
{
    if i < s.len() && !is_lit_delim(s[i]) {
        lemma_scan_lit_bounds(s, i + 1);
    }
}

proof fn lemma_scan_qlit_bounds(s: Seq<char>, i: int)
    requires
        0 <= i <= s.len(),
    ensures
        i <= scan_qlit_end(s, i) <= s.len(),
        i < s.len() && !is_qlit_delim(s[i]) ==> i < scan_qlit_end(s, i),
    decreases s.len() - i,
{
    if i < s.len() && !is_qlit_delim(s[i]) {
        lemma_scan_qlit_bounds(s, i + 1);
    }
}

proof fn lemma_scan_squote_bounds(s: Seq<char>, i: int)
    requires
        0 <= i <= s.len(),
    ensures
        i <= scan_squote_end(s, i) <= s.len(),
        scan_squote_end(s, i) == s.len() || s[scan_squote_end(s, i)] == '\'',
    decreases s.len() - i,
{
    if i < s.len() && s[i] != '\'' {
        lemma_scan_squote_bounds(s, i + 1);
    }
}

proof fn lemma_expansion_lossless(s: Seq<char>, i: int)
    requires
        0 <= i < s.len(),
        s[i] == '$',
    ensures
        sp_expansion(s, i) matches Ok((e, j)) ==> i < j <= s.len() && expansion_text(e)
            == s.subrange(i, j),
{
    if sp_expansion(s, i) is Ok {
        let (e, j) = sp_expansion(s, i)->Ok_0;
        if i + 1 < s.len() && is_name_start(s[i + 1]) {
            lemma_scan_name_bounds(s, i + 1);
            assert(expansion_text(e) =~= s.subrange(i, j));
        } else {
            lemma_scan_name_bounds(s, i + 2);
            let end = scan_name_end(s, i + 2);
            if end < s.len() && s[end] == '}' {
                assert(expansion_text(e) =~= s.subrange(i, j));
            } else {
                assert(expansion_text(e) =~= s.subrange(i, j));
            }
        }
    }
}

proof fn lemma_qpart_lossless(s: Seq<char>, i: int)
    requires
        0 <= i < s.len(),
        s[i] != '"',
    ensures
        sp_qpart(s, i) matches Ok((p, j)) ==> i < j <= s.len() && qpart_text(p) == s.subrange(
            i,
            j,
        ),
{
    if sp_qpart(s, i) is Ok {
        let (p, j) = sp_qpart(s, i)->Ok_0;
        if s[i] == '\\' {
            assert(qpart_text(p) =~= s.subrange(i, j));
        } else if s[i] == '$' {
            lemma_expansion_lossless(s, i);
        } else {
            lemma_scan_qlit_bounds(s, i);
        }
    }
}

proof fn lemma_quoted_lossless(s: Seq<char>, qpos: int, i: int)
    requires
        0 <= i <= s.len(),
    ensures
        sp_quoted(s, qpos, i) matches Ok((ps, k)) ==> i < k <= s.len() && s[k - 1] == '"'
            && qparts_text(ps) == s.subrange(i, k - 1),
    decreases s.len() - i,
{
    if sp_quoted(s, qpos, i) is Ok {
        let (ps, k) = sp_quoted(s, qpos, i)->Ok_0;
        if s[i] == '"' {
            assert(qparts_text(ps) =~= s.subrange(i, i));
        } else {
            let (p, j) = sp_qpart(s, i)->Ok_0;
            lemma_qpart_lossless(s, i);
            lemma_quoted_lossless(s, qpos, j);
            let (rest, _k) = sp_quoted(s, qpos, j)->Ok_0;
            assert((seq![p] + rest)[0] == p);
            assert((seq![p] + rest).drop_first() =~= rest);
            assert(qparts_text(ps) == qpart_text(p) + qparts_text(rest));
            assert(qpart_text(p) + qparts_text(rest) =~= s.subrange(i, k - 1));
        }
    }
}

proof fn lemma_token_lossless(s: Seq<char>, i: int)
    requires
        0 <= i < s.len(),
        s[i] != '\n',
    ensures
        sp_token(s, i) matches Ok((t, j)) ==> i < j <= s.len() && token_text(t) == s.subrange(
            i,
            j,
        ),
{
    if sp_token(s, i) is Ok {
        let (t, j) = sp_token(s, i)->Ok_0;
        if s[i] == '\\' {
            assert(token_text(t) =~= s.subrange(i, j));
        } else if s[i] == '"' {
            lemma_quoted_lossless(s, i, i + 1);
            let (ps, k) = sp_quoted(s, i, i + 1)->Ok_0;
            assert(token_text(t) =~= s.subrange(i, j));
        } else if s[i] == '\'' {
            lemma_scan_squote_bounds(s, i + 1);
            assert(token_text(t) =~= s.subrange(i, j));
        } else if s[i] == '$' {
            lemma_expansion_lossless(s, i);
        } else {
            lemma_scan_lit_bounds(s, i);
        }
    }
}

proof fn lemma_tokens_lossless(s: Seq<char>, i: int)
    requires
        0 <= i <= s.len(),
    ensures
        sp_tokens(s, i) matches Ok((ts, k)) ==> i <= k <= s.len() && tokens_text(ts) == s.subrange(
            i,
            k,
        ),
    decreases s.len() - i,
{
    if sp_tokens(s, i) is Ok {
        let (ts, k) = sp_tokens(s, i)->Ok_0;
        if i >= s.len() || s[i] == '\n' {
            assert(tokens_text(ts) =~= s.subrange(i, i));
        } else {
            let (t, j) = sp_token(s, i)->Ok_0;
            lemma_token_lossless(s, i);
            lemma_tokens_lossless(s, j);
            let (rest, _k) = sp_tokens(s, j)->Ok_0;
            assert((seq![t] + rest)[0] == t);
            assert((seq![t] + rest).drop_first() =~= rest);
            assert(tokens_text(ts) == token_text(t) + tokens_text(rest));
            assert(token_text(t) + tokens_text(rest) =~= s.subrange(i, k));
        }
    }
}

proof fn lemma_node_lossless(s: Seq<char>, i: int)
    requires
        0 <= i < s.len(),
    ensures
        sp_node(s, i) matches Ok((n, j)) ==> i < j <= s.len() && node_text(n) == s.subrange(i, j),
{
    if sp_node(s, i) is Ok {
        let (n, j) = sp_node(s, i)->Ok_0;
        if s[i] == '\n' {
            assert(node_text(n) =~= s.subrange(i, i + 1));
        } else if s[i] == '#' {
            lemma_scan_line_bounds(s, i + 1);
            assert(node_text(n) =~= s.subrange(i, j));
        } else if is_blank(s[i]) {
            lemma_scan_blank_bounds(s, i);
        } else {
            let end = scan_name_end(s, i);
            lemma_scan_name_bounds(s, i);
            lemma_tokens_lossless(s, end + 1);
            let (ts, k) = sp_tokens(s, end + 1)->Ok_0;
            assert(node_text(n) =~= s.subrange(i, j));
        }
    }
}

proof fn lemma_nodes_lossless(s: Seq<char>, i: int)
    requires
        0 <= i <= s.len(),
    ensures
        sp_nodes(s, i) matches Ok(ns) ==> nodes_text(ns) == s.subrange(i, s.len() as int),
    decreases s.len() - i,
{
    if sp_nodes(s, i) is Ok {
        let ns = sp_nodes(s, i)->Ok_0;
        if i >= s.len() {
            assert(nodes_text(ns) =~= s.subrange(i, s.len() as int));
        } else {
            let (n, j) = sp_node(s, i)->Ok_0;
            lemma_node_lossless(s, i);
            lemma_nodes_lossless(s, j);
            let rest = sp_nodes(s, j)->Ok_0;
            assert((seq![n] + rest)[0] == n);
            assert((seq![n] + rest).drop_first() =~= rest);
            assert(nodes_text(ns) == node_text(n) + nodes_text(rest));
            assert(node_text(n) + nodes_text(rest) =~= s.subrange(i, s.len() as int));
        }
    }
}

/// Law: the tree is lossless. Whenever a source text parses, the exact
/// characters of the tree's nodes, concatenated in order, are the source
/// text itself: every byte of the input can be re-derived from the tree.
pub proof fn lemma_parse_lossless(s: Seq<char>)
    ensures
        spec_parse(s) matches Ok(ns) ==> nodes_text(ns) == s,
{
    lemma_nodes_lossless(s, 0);
    if spec_parse(s) is Ok {
        let ns = spec_parse(s)->Ok_0;
        assert(s.subrange(0, s.len() as int) =~= s);
    }
}

// ---------------------------------------------------------------------
// Reconstruction: the exact source text of a tree, executable
// ---------------------------------------------------------------------

fn expansion_chars(e: &LstExpansion) -> (r: Vec<char>)
    ensures
        r@ == expansion_text(e@),
{
    let mut out: Vec<char> = Vec::new();
    out.push('$');
    match e.kind {
        ExpansionKind::Bare => {
            let mut name = copy_range(&e.name, 0, e.name.len());
            out.append(&mut name);
            proof {
                assert(e.name@.subrange(0, e.name@.len() as int) =~= e.name@);
                assert(out@ =~= expansion_text(e@));
            }
        },
        ExpansionKind::Braced => {
            out.push('{');
            let mut name = copy_range(&e.name, 0, e.name.len());
            out.append(&mut name);
            out.push('}');
            proof {
                assert(e.name@.subrange(0, e.name@.len() as int) =~= e.name@);
                assert(out@ =~= expansion_text(e@));
            }
        },
        ExpansionKind::BracedArray => {
            out.push('{');
            let mut name = copy_range(&e.name, 0, e.name.len());
            out.append(&mut name);
            out.push('[');
            out.push('@');
            out.push(']');
            out.push('}');
            proof {
                assert(e.name@.subrange(0, e.name@.len() as int) =~= e.name@);
                assert(out@ =~= expansion_text(e@));
            }
        },
    }
    out
}

fn qpart_chars(p: &LstQuotedPart) -> (r: Vec<char>)
    ensures
        r@ == qpart_text(p@),
{
    match p {
        LstQuotedPart::Literal(v) => {
            let out = copy_range(v, 0, v.len());
            proof {
                assert(v@.subrange(0, v@.len() as int) =~= v@);
            }
            out
        },
        LstQuotedPart::Escaped(c) => {
            let mut out: Vec<char> = Vec::new();
            out.push('\\');
            out.push(*c);
            proof {
                assert(out@ =~= seq!['\\', *c]);
            }
            out
        },
        LstQuotedPart::Continuation => {
            let mut out: Vec<char> = Vec::new();
            out.push('\\');
            out.push('\n');
            proof {
                assert(out@ =~= seq!['\\', '\n']);
            }
            out
        },
        LstQuotedPart::Expansion(e) => expansion_chars(e),
    }
}

fn qparts_chars(ps: &Vec<LstQuotedPart>) -> (r: Vec<char>)
    ensures
        r@ == qparts_text(ps@.map_values(|p: LstQuotedPart| p@)),
{
    let ghost psm = ps@.map_values(|p: LstQuotedPart| p@);
    let mut out: Vec<char> = Vec::new();
    proof {
        assert(psm.skip(0) =~= psm);
    }
    let mut i: usize = 0;
    while i < ps.len()
        invariant
            i <= ps@.len(),
            psm == ps@.map_values(|p: LstQuotedPart| p@),
            psm.len() == ps@.len(),
            out@ + qparts_text(psm.skip(i as int)) == qparts_text(psm),
        decreases ps@.len() - i,
    {
        let ghost prev = out@;
        let mut piece = qpart_chars(&ps[i]);
        let ghost piece_text = piece@;
        out.append(&mut piece);
        proof {
            assert(psm.skip(i as int)[0] == psm[i as int]);
            assert(psm.skip(i as int).drop_first() =~= psm.skip(i + 1));
            assert(prev + (piece_text + qparts_text(psm.skip(i + 1))) =~= (prev + piece_text)
                + qparts_text(psm.skip(i + 1)));
        }
        i += 1;
    }
    proof {
        assert(psm.skip(psm.len() as int) =~= Seq::<QuotedPartModel>::empty());
        assert(out@ + Seq::<char>::empty() =~= out@);
    }
    out
}

fn token_chars(t: &LstToken) -> (r: Vec<char>)
    ensures
        r@ == token_text(t@),
{
    match t {
        LstToken::Literal(v) => {
            let out = copy_range(v, 0, v.len());
            proof {
                assert(v@.subrange(0, v@.len() as int) =~= v@);
            }
            out
        },
        LstToken::Escaped(c) => {
            let mut out: Vec<char> = Vec::new();
            out.push('\\');
            out.push(*c);
            proof {
                assert(out@ =~= seq!['\\', *c]);
            }
            out
        },
        LstToken::Continuation => {
            let mut out: Vec<char> = Vec::new();
            out.push('\\');
            out.push('\n');
            proof {
                assert(out@ =~= seq!['\\', '\n']);
            }
            out
        },
        LstToken::Quoted(ps) => {
            let mut out: Vec<char> = Vec::new();
            out.push('"');
            let mut inner = qparts_chars(ps);
            out.append(&mut inner);
            out.push('"');
            proof {
                assert(out@ =~= token_text(t@));
            }
            out
        },
        LstToken::SingleQuoted(v) => {
            let mut out: Vec<char> = Vec::new();
            out.push('\'');
            let mut inner = copy_range(v, 0, v.len());
            out.append(&mut inner);
            out.push('\'');
            proof {
                assert(v@.subrange(0, v@.len() as int) =~= v@);
                assert(out@ =~= token_text(t@));
            }
            out
        },
        LstToken::Expansion(e) => expansion_chars(e),
    }
}

fn tokens_chars(ts: &Vec<LstToken>) -> (r: Vec<char>)
    ensures
        r@ == tokens_text(ts@.map_values(|t: LstToken| t@)),
{
    let ghost tsm = ts@.map_values(|t: LstToken| t@);
    let mut out: Vec<char> = Vec::new();
    proof {
        assert(tsm.skip(0) =~= tsm);
    }
    let mut i: usize = 0;
    while i < ts.len()
        invariant
            i <= ts@.len(),
            tsm == ts@.map_values(|t: LstToken| t@),
            tsm.len() == ts@.len(),
            out@ + tokens_text(tsm.skip(i as int)) == tokens_text(tsm),
        decreases ts@.len() - i,
    {
        let ghost prev = out@;
        let mut piece = token_chars(&ts[i]);
        let ghost piece_text = piece@;
        out.append(&mut piece);
        proof {
            assert(tsm.skip(i as int)[0] == tsm[i as int]);
            assert(tsm.skip(i as int).drop_first() =~= tsm.skip(i + 1));
            assert(prev + (piece_text + tokens_text(tsm.skip(i + 1))) =~= (prev + piece_text)
                + tokens_text(tsm.skip(i + 1)));
        }
        i += 1;
    }
    proof {
        assert(tsm.skip(tsm.len() as int) =~= Seq::<TokenModel>::empty());
        assert(out@ + Seq::<char>::empty() =~= out@);
    }
    out
}

fn node_chars(n: &LstNode) -> (r: Vec<char>)
    ensures
        r@ == node_text(n@),
{
    match n {
        LstNode::Newline => {
            let mut out: Vec<char> = Vec::new();
            out.push('\n');
            proof {
                assert(out@ =~= seq!['\n']);
            }
            out
        },
        LstNode::Spaces(v) => {
            let out = copy_range(v, 0, v.len());
            proof {
                assert(v@.subrange(0, v@.len() as int) =~= v@);
            }
            out
        },
        LstNode::Comment(v) => {
            let mut out: Vec<char> = Vec::new();
            out.push('#');
            let mut inner = copy_range(v, 0, v.len());
            out.append(&mut inner);
            proof {
                assert(v@.subrange(0, v@.len() as int) =~= v@);
                assert(out@ =~= node_text(n@));
            }
            out
        },
        LstNode::Assignment(a) => {
            let mut out = copy_range(&a.name, 0, a.name.len());
            out.push('=');
            let mut value = tokens_chars(&a.tokens);
            out.append(&mut value);
            proof {
                assert(a.name@.subrange(0, a.name@.len() as int) =~= a.name@);
                assert(out@ =~= node_text(n@));
            }
            out
        },
    }
}

impl ApmlLst {
    /// Reconstructs the exact source text of the tree, character for
    /// character: the lossless counterpart of [`ApmlLst::parse`].
    pub fn source_text(&self) -> (r: String)
        ensures
            r@ == nodes_text(self@),
    {
        let ghost nsm = self.nodes@.map_values(|n: LstNode| n@);
        let mut out: Vec<char> = Vec::new();
        proof {
            assert(nsm.skip(0) =~= nsm);
        }
        let mut i: usize = 0;
        while i < self.nodes.len()
            invariant
                i <= self.nodes@.len(),
                nsm == self.nodes@.map_values(|n: LstNode| n@),
                nsm.len() == self.nodes@.len(),
                out@ + nodes_text(nsm.skip(i as int)) == nodes_text(nsm),
            decreases self.nodes@.len() - i,
        {
            let ghost prev = out@;
            let mut piece = node_chars(&self.nodes[i]);
            let ghost piece_text = piece@;
            out.append(&mut piece);
            proof {
                assert(nsm.skip(i as int)[0] == nsm[i as int]);
                assert(nsm.skip(i as int).drop_first() =~= nsm.skip(i + 1));
                assert(prev + (piece_text + nodes_text(nsm.skip(i + 1))) =~= (prev + piece_text)
                    + nodes_text(nsm.skip(i + 1)));
            }
            i += 1;
        }
        proof {
            assert(nsm.skip(nsm.len() as int) =~= Seq::<NodeModel>::empty());
            assert(out@ + Seq::<char>::empty() =~= out@);
        }
        crate::text::chars_to_string(&out)
    }
}

} // verus!
