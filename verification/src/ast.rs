//! The AST model and the lowering algorithm: the rule-driven transform from a
//! rule-tagged parse tree into the typed AST consumed by the transpiler.

use vstd::prelude::*;
use vstd::string::StrSliceExecFns;

use crate::literals::spec_parse_i128;
use crate::literals::strip_quotes_view;
use crate::parse_tree::NodeView;
use crate::parse_tree::ParseNode;
use crate::parse_tree::Rule;

verus! {

/// A typed program element: the closed variant set the lowering produces.
#[derive(Debug, PartialEq)]
pub enum AstNode {
    Str(String),
    Int(i128),
    Char(char),
    Boolean(bool),
    Identifier(String),
    Type(String),
    FnArgs(Vec<(AstNode, AstNode)>),
    AnonFn { args: Box<AstNode>, return_type: Box<AstNode>, value: Box<AstNode> },
    Fn { name: String, return_type: Box<AstNode>, args: Box<AstNode>, value: Box<AstNode> },
    Eoi,
}

/// The mathematical shape of an AST node.
pub enum AstView {
    Str(Seq<char>),
    Int(int),
    Char(char),
    Boolean(bool),
    Identifier(Seq<char>),
    Type(Seq<char>),
    FnArgs(Seq<(AstView, AstView)>),
    AnonFn { args: Box<AstView>, return_type: Box<AstView>, value: Box<AstView> },
    Fn { name: Seq<char>, return_type: Box<AstView>, args: Box<AstView>, value: Box<AstView> },
    Eoi,
}

/// The views of the first `i` (name, type) pairs of an argument-list node,
/// in order.
pub open spec fn fn_args_views_upto(n: AstNode, i: int) -> Seq<(AstView, AstView)>
    decreases n, (if i >= 0 { i } else { 0 }) as nat,
{
    if n is FnArgs {
        let pairs = n->FnArgs_0@;
        if i <= 0 || i > pairs.len() {
            Seq::empty()
        } else {
            fn_args_views_upto(n, i - 1).push(
                (ast_view(pairs[i - 1].0), ast_view(pairs[i - 1].1)),
            )
        }
    } else {
        Seq::empty()
    }
}

/// The mathematical value of an AST node.
pub open spec fn ast_view(n: AstNode) -> AstView
    decreases n, n->FnArgs_0@.len() + 1,
{
    match n {
        AstNode::Str(s) => AstView::Str(s@),
        AstNode::Int(v) => AstView::Int(v as int),
        AstNode::Char(c) => AstView::Char(c),
        AstNode::Boolean(b) => AstView::Boolean(b),
        AstNode::Identifier(s) => AstView::Identifier(s@),
        AstNode::Type(s) => AstView::Type(s@),
        AstNode::FnArgs(pairs) => AstView::FnArgs(fn_args_views_upto(n, pairs@.len() as int)),
        AstNode::AnonFn { args, return_type, value } => AstView::AnonFn {
            args: Box::new(ast_view(*args)),
            return_type: Box::new(ast_view(*return_type)),
            value: Box::new(ast_view(*value)),
        },
        AstNode::Fn { name, return_type, args, value } => AstView::Fn {
            name: name@,
            return_type: Box::new(ast_view(*return_type)),
            args: Box::new(ast_view(*args)),
            value: Box::new(ast_view(*value)),
        },
        AstNode::Eoi => AstView::Eoi,
    }
}

impl View for AstNode {
    type V = AstView;

    open spec fn view(&self) -> AstView {
        ast_view(*self)
    }
}

/// Why a parse-tree node could not be lowered. The first three are
/// literal-conversion failures; the last two report an internal
/// grammar/lowering mismatch, never bad user input.
#[derive(Clone, Copy, Debug, PartialEq, Eq, Structural)]
pub enum LowerError {
    BadIntLiteral,
    BadBoolLiteral,
    ShortCharLiteral,
    MissingChild,
    UnexpectedRule,
}

/// The placeholder an anonymous-function node always lowers to: the grammar
/// cannot yet describe anonymous-function bodies.
pub open spec fn anon_fn_placeholder() -> AstView {
    AstView::AnonFn {
        args: Box::new(AstView::FnArgs(Seq::empty())),
        return_type: Box::new(AstView::Type(Seq::empty())),
        value: Box::new(AstView::Boolean(false)),
    }
}

/// What one parse-tree node lowers to, by rule label.
pub open spec fn lower_node(n: NodeView) -> Result<AstView, LowerError>
    decreases n, n.children.len() + 1,
{
    match n.rule {
        Rule::Name => Ok(AstView::Identifier(n.text)),
        Rule::FnName => Ok(AstView::Identifier(n.text)),
        Rule::Identifier => Ok(AstView::Identifier(n.text)),
        Rule::FireworkType => Ok(AstView::Type(n.text)),
        Rule::TypeSignature => lower_only_child(n),
        Rule::ReturnType => lower_only_child(n),
        Rule::Literal => lower_only_child(n),
        Rule::Expr => lower_only_child(n),
        Rule::Int => match spec_parse_i128(n.text) {
            Some(v) => Ok(AstView::Int(v)),
            None => Err(LowerError::BadIntLiteral),
        },
        Rule::Boolean => if n.text == "true"@ {
            Ok(AstView::Boolean(true))
        } else if n.text == "false"@ {
            Ok(AstView::Boolean(false))
        } else {
            Err(LowerError::BadBoolLiteral)
        },
        Rule::Str => Ok(AstView::Str(strip_quotes_view(n.text))),
        Rule::Char => if n.text.len() >= 2 {
            Ok(AstView::Char(n.text[1]))
        } else {
            Err(LowerError::ShortCharLiteral)
        },
        Rule::FnArgs => match lower_args(n, n.children.len() as int) {
            Ok((names, types)) => Ok(
                AstView::FnArgs(zip_args(names, types)),
            ),
            Err(e) => Err(e),
        },
        Rule::Declaration => lower_declaration(n),
        Rule::AnonFn => Ok(anon_fn_placeholder()),
        Rule::Eoi => Ok(AstView::Eoi),
        Rule::Program => Err(LowerError::UnexpectedRule),
    }
}

/// Wrapper labels carry exactly one child, the real node: delegate to it.
pub open spec fn lower_only_child(n: NodeView) -> Result<AstView, LowerError>
    decreases n, 0nat,
{
    if n.children.len() >= 1 {
        lower_node(n.children[0])
    } else {
        Err(LowerError::MissingChild)
    }
}

/// The first `i` children of an argument-list node, lowered and split into a
/// names list and a types list, in child order; the first failing child wins.
pub open spec fn lower_args(n: NodeView, i: int) -> Result<(Seq<AstView>, Seq<AstView>), LowerError>
    decreases n, (if i >= 0 { i } else { 0 }) as nat,
{
    if i <= 0 || i > n.children.len() {
        Ok((Seq::empty(), Seq::empty()))
    } else {
        match lower_args(n, i - 1) {
            Err(e) => Err(e),
            Ok((names, types)) => {
                let c = n.children[i - 1];
                if c.rule == Rule::Name {
                    match lower_node(c) {
                        Err(e) => Err(e),
                        Ok(a) => Ok((names.push(a), types)),
                    }
                } else if c.rule == Rule::TypeSignature {
                    match lower_node(c) {
                        Err(e) => Err(e),
                        Ok(a) => Ok((names, types.push(a))),
                    }
                } else {
                    Err(LowerError::UnexpectedRule)
                }
            },
        }
    }
}

/// Position-wise pairing of names with types, truncated to the shorter list.
pub open spec fn zip_args(names: Seq<AstView>, types: Seq<AstView>) -> Seq<(AstView, AstView)> {
    Seq::new(
        if names.len() <= types.len() {
            names.len()
        } else {
            types.len()
        },
        |i: int| (names[i], types[i]),
    )
}

/// A declaration's children come in fixed order: name, then either an
/// argument list or (for a zero-argument function) the return type directly,
/// then the remaining children.
pub open spec fn lower_declaration(n: NodeView) -> Result<AstView, LowerError>
    decreases n, 0nat,
{
    if n.children.len() < 2 {
        Err(LowerError::MissingChild)
    } else {
        let name = n.children[0];
        let arg_or_type = n.children[1];
        if arg_or_type.rule == Rule::FnArgs {
            if n.children.len() < 4 {
                Err(LowerError::MissingChild)
            } else {
                match lower_node(arg_or_type) {
                    Err(e) => Err(e),
                    Ok(args) => match lower_node(n.children[2]) {
                        Err(e) => Err(e),
                        Ok(rt) => match lower_node(n.children[3]) {
                            Err(e) => Err(e),
                            Ok(v) => Ok(
                                AstView::Fn {
                                    name: name.text,
                                    return_type: Box::new(rt),
                                    args: Box::new(args),
                                    value: Box::new(v),
                                },
                            ),
                        },
                    },
                }
            }
        } else {
            if n.children.len() < 3 {
                Err(LowerError::MissingChild)
            } else {
                match lower_node(arg_or_type) {
                    Err(e) => Err(e),
                    Ok(rt) => match lower_node(n.children[2]) {
                        Err(e) => Err(e),
                        Ok(v) => Ok(
                            AstView::Fn {
                                name: name.text,
                                return_type: Box::new(rt),
                                args: Box::new(AstView::FnArgs(Seq::empty())),
                                value: Box::new(v),
                            },
                        ),
                    },
                }
            }
        }
    }
}

/// The first `i` nodes of a program, lowered in order; the first failing
/// node's error wins.
pub open spec fn lower_prefix(nodes: Seq<NodeView>, i: int) -> Result<Seq<AstView>, LowerError>
    decreases (if i >= 0 { i } else { 0 }) as nat,
{
    if i <= 0 || i > nodes.len() {
        Ok(Seq::empty())
    } else {
        match lower_prefix(nodes, i - 1) {
            Err(e) => Err(e),
            Ok(pre) => match lower_node(nodes[i - 1]) {
                Err(e) => Err(e),
                Ok(a) => Ok(pre.push(a)),
            },
        }
    }
}

/// What a whole parsed program lowers to: every top-level node, in order.
pub open spec fn lower_program(nodes: Seq<NodeView>) -> Result<Seq<AstView>, LowerError> {
    lower_prefix(nodes, nodes.len() as int)
}

/// The views of a sequence of parse-tree nodes.
pub open spec fn node_views(s: Seq<ParseNode>) -> Seq<NodeView> {
    s.map_values(|n: ParseNode| n@)
}

/// The views of a sequence of AST nodes.
pub open spec fn ast_views(s: Seq<AstNode>) -> Seq<AstView> {
    s.map_values(|a: AstNode| ast_view(a))
}

/// The views of a sequence of (name, type) pairs.
pub open spec fn pair_views(s: Seq<(AstNode, AstNode)>) -> Seq<(AstView, AstView)> {
    s.map_values(|p: (AstNode, AstNode)| (ast_view(p.0), ast_view(p.1)))
}

/// Once a child of an argument list fails to lower, every longer prefix
/// carries the same failure.
proof fn lemma_lower_args_err(n: NodeView, i: int, j: int)
    requires
        0 <= i <= j <= n.children.len(),
        lower_args(n, i) is Err,
    ensures
        lower_args(n, j) == lower_args(n, i),
    decreases j - i,
{
    if i < j {
        lemma_lower_args_err(n, i, j - 1);
    }
}

/// Once a program node fails to lower, every longer prefix carries the same
/// failure.
proof fn lemma_lower_prefix_err(nodes: Seq<NodeView>, i: int, j: int)
    requires
        0 <= i <= j <= nodes.len(),
        lower_prefix(nodes, i) is Err,
    ensures
        lower_prefix(nodes, j) == lower_prefix(nodes, i),
    decreases j - i,
{
    if i < j {
        lemma_lower_prefix_err(nodes, i, j - 1);
    }
}

/// The pairs an argument-list node's view holds are exactly the views of
/// its pairs, position-wise.
proof fn lemma_fn_args_views_upto(n: AstNode, i: int)
    requires
        n is FnArgs,
        0 <= i <= n->FnArgs_0@.len(),
    ensures
        fn_args_views_upto(n, i) == pair_views(n->FnArgs_0@.take(i)),
    decreases i,
{
    reveal_with_fuel(fn_args_views_upto, 2);
    if i <= 0 {
        assert(fn_args_views_upto(n, i) =~= pair_views(n->FnArgs_0@.take(i)));
    } else {
        lemma_fn_args_views_upto(n, i - 1);
        assert(fn_args_views_upto(n, i) =~= pair_views(n->FnArgs_0@.take(i)));
    }
}

/// A name-labeled child of an argument list.
pub open spec fn is_name_node(c: NodeView) -> bool {
    c.rule == Rule::Name
}

/// A type-signature-labeled child of an argument list.
pub open spec fn is_type_sig_node(c: NodeView) -> bool {
    c.rule == Rule::TypeSignature
}

/// The name children of an argument list, in child order.
pub open spec fn name_children(s: Seq<NodeView>) -> Seq<NodeView> {
    s.filter(|c: NodeView| is_name_node(c))
}

/// The type-signature children of an argument list, in child order.
pub open spec fn type_children(s: Seq<NodeView>) -> Seq<NodeView> {
    s.filter(|c: NodeView| is_type_sig_node(c))
}

/// An anonymous-function node always lowers to the fixed placeholder,
/// whatever its text and children hold.
pub proof fn lemma_anon_fn_placeholder(n: NodeView)
    requires
        n.rule == Rule::AnonFn,
    ensures
        lower_node(n) == Ok::<AstView, LowerError>(anon_fn_placeholder()),
{
}

/// A declaration without an argument-list child lowers to a function whose
/// argument list is empty and whose return type and body are the lowered
/// second and third children.
pub proof fn lemma_zero_arg_declaration(n: NodeView)
    requires
        n.rule == Rule::Declaration,
        n.children.len() >= 3,
        n.children[1].rule != Rule::FnArgs,
        lower_node(n.children[1]) is Ok,
        lower_node(n.children[2]) is Ok,
    ensures
        lower_node(n) == Ok::<AstView, LowerError>(
            AstView::Fn {
                name: n.children[0].text,
                return_type: Box::new(lower_node(n.children[1])->Ok_0),
                args: Box::new(AstView::FnArgs(Seq::empty())),
                value: Box::new(lower_node(n.children[2])->Ok_0),
            },
        ),
{
}

/// What the split of an argument list's first `i` children looks like: the
/// lowered names and the lowered type signatures, each in child order.
proof fn lemma_lower_args_structure(n: NodeView, i: int)
    requires
        0 <= i <= n.children.len(),
        forall|k: int|
            0 <= k < n.children.len() ==> (n.children[k].rule == Rule::Name
                || n.children[k].rule == Rule::TypeSignature),
        forall|k: int|
            0 <= k < n.children.len() && n.children[k].rule == Rule::TypeSignature
                ==> lower_node(n.children[k]) is Ok,
    ensures
        lower_args(n, i) matches Ok((ns, ts)) && {
            let names = name_children(n.children.take(i));
            let types = type_children(n.children.take(i));
            &&& ns.len() == names.len()
            &&& ts.len() == types.len()
            &&& forall|k: int| 0 <= k < ns.len() ==> ns[k] == AstView::Identifier(names[k].text)
            &&& forall|k: int|
                0 <= k < ts.len() ==> lower_node(types[k]) == Ok::<AstView, LowerError>(ts[k])
        },
    decreases i,
{
    reveal(Seq::filter);
    if i <= 0 {
        assert(n.children.take(i) =~= Seq::<NodeView>::empty());
    } else {
        lemma_lower_args_structure(n, i - 1);
        let c = n.children[i - 1];
        assert(n.children.take(i).drop_last() =~= n.children.take(i - 1));
        assert(n.children.take(i).last() == c);
    }
}

/// An argument list whose children are names and type signatures lowers to
/// exactly the position-wise pairs of the lowered names with the lowered
/// type signatures, in child order, truncated to the shorter of the two.
pub proof fn lemma_fn_args_pairing(n: NodeView)
    requires
        n.rule == Rule::FnArgs,
        forall|k: int|
            0 <= k < n.children.len() ==> (n.children[k].rule == Rule::Name
                || n.children[k].rule == Rule::TypeSignature),
        forall|k: int|
            0 <= k < n.children.len() && n.children[k].rule == Rule::TypeSignature
                ==> lower_node(n.children[k]) is Ok,
    ensures
        lower_node(n) matches Ok(a) && a matches AstView::FnArgs(pairs) && {
            let names = name_children(n.children);
            let types = type_children(n.children);
            &&& pairs.len() == if names.len() <= types.len() {
                names.len()
            } else {
                types.len()
            }
            &&& forall|k: int|
                0 <= k < pairs.len() ==> pairs[k] == (
                    AstView::Identifier(names[k].text),
                    lower_node(types[k])->Ok_0,
                )
        },
{
    lemma_lower_args_structure(n, n.children.len() as int);
    assert(n.children.take(n.children.len() as int) =~= n.children);
}

/// A prefix that lowers successfully lowers node by node, in order.
proof fn lemma_lower_prefix_ok(nodes: Seq<NodeView>, i: int)
    requires
        0 <= i <= nodes.len(),
        lower_prefix(nodes, i) is Ok,
    ensures
        lower_prefix(nodes, i)->Ok_0.len() == i,
        forall|k: int|
            0 <= k < i ==> lower_node(nodes[k]) == Ok::<AstView, LowerError>(
                lower_prefix(nodes, i)->Ok_0[k],
            ),
    decreases i,
{
    if i > 0 {
        lemma_lower_prefix_ok(nodes, i - 1);
    }
}

/// A declaration that lowers successfully yields a named function.
proof fn lemma_declaration_yields_fn(n: NodeView)
    requires
        n.rule == Rule::Declaration,
        lower_node(n) is Ok,
    ensures
        lower_node(n)->Ok_0 is Fn,
{
}

/// A program whose top-level nodes are declarations closed by one
/// end-of-input node lowers to a sequence of the same length whose last
/// element is the end-of-input marker and whose every other element is a
/// named function declaration: exactly one end-of-input marker, and it is
/// last.
pub proof fn lemma_program_ends_with_eoi(nodes: Seq<NodeView>, asts: Seq<AstView>)
    requires
        nodes.len() > 0,
        nodes.last().rule == Rule::Eoi,
        forall|i: int| 0 <= i < nodes.len() - 1 ==> nodes[i].rule == Rule::Declaration,
        lower_program(nodes) == Ok::<Seq<AstView>, LowerError>(asts),
    ensures
        asts.len() == nodes.len(),
        asts.last() == AstView::Eoi,
        forall|i: int| 0 <= i < asts.len() - 1 ==> asts[i] is Fn,
        forall|i: int| 0 <= i < asts.len() - 1 ==> !(asts[i] is Eoi),
{
    lemma_lower_prefix_ok(nodes, nodes.len() as int);
    assert forall|i: int| 0 <= i < asts.len() - 1 implies asts[i] is Fn by {
        lemma_declaration_yields_fn(nodes[i]);
    }
}

/// An argument list node with no children at all.
fn empty_fn_args() -> (r: AstNode)
    ensures
        r@ == AstView::FnArgs(Seq::<(AstView, AstView)>::empty()),
{
    let v: Vec<(AstNode, AstNode)> = Vec::new();
    let r = AstNode::FnArgs(v);
    proof {
        reveal_with_fuel(ast_view, 2);
        reveal_with_fuel(fn_args_views_upto, 2);
        assert(r@ matches AstView::FnArgs(s) && s =~= Seq::<(AstView, AstView)>::empty());
    }
    r
}

/// Lowers a wrapper node by delegating to its single child.
fn build_only_child(node: &ParseNode) -> (r: Result<AstNode, LowerError>)
    ensures
        match r {
            Ok(a) => lower_only_child(node@) == Ok::<AstView, LowerError>(a@),
            Err(e) => lower_only_child(node@) == Err::<AstView, LowerError>(e),
        },
    decreases *node, 0nat,
{
    if node.children.len() >= 1 {
        build_ast(&node.children[0])
    } else {
        Err(LowerError::MissingChild)
    }
}

/// Lowers an argument-list node: every child is either a name or a type
/// signature; the two lists are paired position-wise, truncated to the
/// shorter one.
#[verifier::loop_isolation(false)]
fn build_fn_args(node: &ParseNode) -> (r: Result<Vec<(AstNode, AstNode)>, LowerError>)
    requires
        node.rule == Rule::FnArgs,
    ensures
        match r {
            Ok(pairs) => lower_node(node@) == Ok::<AstView, LowerError>(
                AstView::FnArgs(pair_views(pairs@)),
            ),
            Err(e) => lower_node(node@) == Err::<AstView, LowerError>(e),
        },
    decreases *node, 0nat,
{
    proof {
        assert(node@.rule == node.rule);
    }
    let n = node.children.len();
    let mut names: Vec<AstNode> = Vec::new();
    let mut types: Vec<AstNode> = Vec::new();
    proof {
        assert(ast_views(names@) =~= Seq::<AstView>::empty());
        assert(ast_views(types@) =~= Seq::<AstView>::empty());
    }
    let mut i: usize = 0;
    while i < n
        invariant
            0 <= i <= n,
            lower_args(node@, i as int) == Ok::<(Seq<AstView>, Seq<AstView>), LowerError>(
                (ast_views(names@), ast_views(types@)),
            ),
        decreases n - i,
    {
        let child = &node.children[i];
        proof {
            assert(node@.children[i as int] == node.children@[i as int]@);
        }
        if child.rule == Rule::Name {
            match build_ast(child) {
                Ok(a) => {
                    let ghost before = names@;
                    names.push(a);
                    proof {
                        assert(ast_views(names@) =~= ast_views(before).push(a@));
                    }
                },
                Err(e) => {
                    proof {
                        lemma_lower_args_err(node@, i + 1, node@.children.len() as int);
                    }
                    return Err(e);
                },
            }
        } else if child.rule == Rule::TypeSignature {
            match build_ast(child) {
                Ok(a) => {
                    let ghost before = types@;
                    types.push(a);
                    proof {
                        assert(ast_views(types@) =~= ast_views(before).push(a@));
                    }
                },
                Err(e) => {
                    proof {
                        lemma_lower_args_err(node@, i + 1, node@.children.len() as int);
                    }
                    return Err(e);
                },
            }
        } else {
            proof {
                lemma_lower_args_err(node@, i + 1, node@.children.len() as int);
            }
            return Err(LowerError::UnexpectedRule);
        }
        i += 1;
    }
    let ghost ns = ast_views(names@);
    let ghost ts = ast_views(types@);
    let m = if names.len() <= types.len() {
        names.len()
    } else {
        types.len()
    };
    let ghost all_names = names@;
    let ghost all_types = types@;
    let mut pairs: Vec<(AstNode, AstNode)> = Vec::new();
    let mut j: usize = 0;
    while j < m
        invariant
            0 <= j <= m,
            m <= all_names.len(),
            m <= all_types.len(),
            names@ == all_names.subrange(j as int, all_names.len() as int),
            types@ == all_types.subrange(j as int, all_types.len() as int),
            pairs@.len() == j,
            forall|k: int|
                0 <= k < j ==> pairs@[k] == (all_names[k], all_types[k]),
        decreases m - j,
    {
        let nm = names.remove(0);
        let ty = types.remove(0);
        proof {
            assert(names@ =~= all_names.subrange(j + 1, all_names.len() as int));
            assert(types@ =~= all_types.subrange(j + 1, all_types.len() as int));
        }
        pairs.push((nm, ty));
        j += 1;
    }
    proof {
        assert(pair_views(pairs@) =~= zip_args(ns, ts));
    }
    Ok(pairs)
}

/// Lowers a declaration node: name first, then either an argument list or
/// the return type directly, then the remaining children in fixed order.
fn build_declaration(node: &ParseNode) -> (r: Result<AstNode, LowerError>)
    ensures
        match r {
            Ok(a) => lower_declaration(node@) == Ok::<AstView, LowerError>(a@),
            Err(e) => lower_declaration(node@) == Err::<AstView, LowerError>(e),
        },
    decreases *node, 0nat,
{
    if node.children.len() < 2 {
        return Err(LowerError::MissingChild);
    }
    let name = node.children[0].text.clone();
    proof {
        assert(node@.children[0] == node.children@[0]@);
        assert(node@.children[1] == node.children@[1]@);
    }
    if node.children[1].rule == Rule::FnArgs {
        if node.children.len() < 4 {
            return Err(LowerError::MissingChild);
        }
        proof {
            assert(node@.children[2] == node.children@[2]@);
            assert(node@.children[3] == node.children@[3]@);
        }
        let args = match build_ast(&node.children[1]) {
            Ok(a) => a,
            Err(e) => {
                return Err(e);
            },
        };
        let rt = match build_ast(&node.children[2]) {
            Ok(a) => a,
            Err(e) => {
                return Err(e);
            },
        };
        let v = match build_ast(&node.children[3]) {
            Ok(a) => a,
            Err(e) => {
                return Err(e);
            },
        };
        Ok(
            AstNode::Fn {
                name,
                return_type: Box::new(rt),
                args: Box::new(args),
                value: Box::new(v),
            },
        )
    } else {
        if node.children.len() < 3 {
            return Err(LowerError::MissingChild);
        }
        proof {
            assert(node@.children[2] == node.children@[2]@);
        }
        let rt = match build_ast(&node.children[1]) {
            Ok(a) => a,
            Err(e) => {
                return Err(e);
            },
        };
        let v = match build_ast(&node.children[2]) {
            Ok(a) => a,
            Err(e) => {
                return Err(e);
            },
        };
        Ok(
            AstNode::Fn {
                name,
                return_type: Box::new(rt),
                args: Box::new(empty_fn_args()),
                value: Box::new(v),
            },
        )
    }
}

/// Lowers a character literal's raw text: its second character, skipping the
/// opening delimiter.
fn char_literal_node(s: &str) -> (r: Result<AstNode, LowerError>)
    ensures
        match r {
            Ok(a) => s@.len() >= 2 && a@ == AstView::Char(s@[1]),
            Err(e) => s@.len() < 2 && e == LowerError::ShortCharLiteral,
        },
{
    let len = s.unicode_len();
    if len >= 2 {
        let c = s.get_char(1);
        let node = AstNode::Char(c);
        proof {
            assert(node@ == AstView::Char(c));
        }
        Ok(node)
    } else {
        Err(LowerError::ShortCharLiteral)
    }
}

/// Lowers one parse-tree node into its typed AST value, by rule label.
pub fn build_ast(node: &ParseNode) -> (r: Result<AstNode, LowerError>)
    ensures
        match r {
            Ok(a) => lower_node(node@) == Ok::<AstView, LowerError>(a@),
            Err(e) => lower_node(node@) == Err::<AstView, LowerError>(e),
        },
    decreases *node, 1nat,
{
    proof {
        assert(node@.rule == node.rule);
        assert(node@.text == node.text@);
    }
    match node.rule {
        Rule::Name => Ok(AstNode::Identifier(node.text.clone())),
        Rule::FnName => Ok(AstNode::Identifier(node.text.clone())),
        Rule::Identifier => Ok(AstNode::Identifier(node.text.clone())),
        Rule::FireworkType => Ok(AstNode::Type(node.text.clone())),
        Rule::TypeSignature => build_only_child(node),
        Rule::ReturnType => build_only_child(node),
        Rule::Literal => build_only_child(node),
        Rule::Expr => build_only_child(node),
        Rule::Int => match crate::literals::parse_i128(node.text.as_str()) {
            Some(v) => Ok(AstNode::Int(v)),
            None => Err(LowerError::BadIntLiteral),
        },
        Rule::Boolean => match crate::literals::parse_bool(node.text.as_str()) {
            Some(b) => Ok(AstNode::Boolean(b)),
            None => Err(LowerError::BadBoolLiteral),
        },
        Rule::Str => Ok(AstNode::Str(crate::literals::strip_quotes(node.text.as_str()))),
        Rule::Char => char_literal_node(node.text.as_str()),
        Rule::FnArgs => match build_fn_args(node) {
            Ok(pairs) => {
                let ghost gp = pairs@;
                let r = AstNode::FnArgs(pairs);
                proof {
                    reveal_with_fuel(ast_view, 2);
                    lemma_fn_args_views_upto(r, gp.len() as int);
                    assert(gp.take(gp.len() as int) =~= gp);
                    assert(r@ matches AstView::FnArgs(s) && s == pair_views(gp));
                }
                Ok(r)
            },
            Err(e) => Err(e),
        },
        Rule::Declaration => build_declaration(node),
        Rule::AnonFn => {
            let ef = empty_fn_args();
            let ty = AstNode::Type(String::new());
            let bv = AstNode::Boolean(false);
            proof {
                assert(ty@ == AstView::Type(Seq::<char>::empty()));
                assert(bv@ == AstView::Boolean(false));
            }
            let r = AstNode::AnonFn {
                args: Box::new(ef),
                return_type: Box::new(ty),
                value: Box::new(bv),
            };
            proof {
                assert(r@ == anon_fn_placeholder());
            }
            Ok(r)
        },
        Rule::Eoi => Ok(AstNode::Eoi),
        Rule::Program => Err(LowerError::UnexpectedRule),
    }
}

/// Lowers a whole parsed program: every top-level node in order, stopping at
/// the first failure.
#[verifier::loop_isolation(false)]
pub fn parse(program: &Vec<ParseNode>) -> (r: Result<Vec<AstNode>, LowerError>)
    ensures
        match r {
            Ok(asts) => lower_program(node_views(program@)) == Ok::<Seq<AstView>, LowerError>(
                ast_views(asts@),
            ),
            Err(e) => lower_program(node_views(program@)) == Err::<Seq<AstView>, LowerError>(e),
        },
{
    let ghost nodes = node_views(program@);
    let mut out: Vec<AstNode> = Vec::new();
    proof {
        assert(ast_views(out@) =~= Seq::<AstView>::empty());
    }
    let mut i: usize = 0;
    while i < program.len()
        invariant
            0 <= i <= program@.len(),
            lower_prefix(nodes, i as int) == Ok::<Seq<AstView>, LowerError>(ast_views(out@)),
        decreases program@.len() - i,
    {
        proof {
            assert(nodes[i as int] == program@[i as int]@);
        }
        match build_ast(&program[i]) {
            Ok(a) => {
                let ghost before = out@;
                out.push(a);
                proof {
                    assert(ast_views(out@) =~= ast_views(before).push(a@));
                }
            },
            Err(e) => {
                proof {
                    lemma_lower_prefix_err(nodes, i + 1, nodes.len() as int);
                }
                return Err(e);
            },
        }
        i += 1;
    }
    Ok(out)
}

} // verus!
