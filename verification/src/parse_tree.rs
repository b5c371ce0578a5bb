//! The library's model of the grammar engine's output: a tree of rule-tagged
//! nodes, each carrying the raw text it matched and its ordered children.

use vstd::prelude::*;

verus! {

/// The closed set of rule labels the grammar emits.
#[derive(Clone, Copy, Debug, PartialEq, Eq, Structural)]
pub enum Rule {
    Program,
    Name,
    FnName,
    FireworkType,
    TypeSignature,
    ReturnType,
    Int,
    Boolean,
    Str,
    Char,
    Literal,
    Identifier,
    FnArgs,
    Declaration,
    AnonFn,
    Expr,
    Eoi,
}

/// One rule-tagged parse-tree node: its label, the raw text it matched, and
/// its ordered children.
pub struct ParseNode {
    pub rule: Rule,
    pub text: String,
    pub children: Vec<ParseNode>,
}

/// The mathematical shape of a parse-tree node.
pub struct NodeView {
    pub rule: Rule,
    pub text: Seq<char>,
    pub children: Seq<NodeView>,
}

impl View for ParseNode {
    type V = NodeView;

    open spec fn view(&self) -> NodeView
        decreases self,
    {
        NodeView {
            rule: self.rule,
            text: self.text@,
            children: Seq::new(
                self.children@.len(),
                |i: int|
                    if 0 <= i < self.children@.len() {
                        self.children@[i]@
                    } else {
                        NodeView { rule: Rule::Eoi, text: Seq::empty(), children: Seq::empty() }
                    },
            ),
        }
    }
}

} // verus!
