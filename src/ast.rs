use vstd::prelude::*;

use crate::non_terminal::NonTerminal;
use crate::token::{display_text, Token, TokenView};

verus! {

/// Whether a node is a leaf (one token) or an inner node labelled with a production.
#[derive(Clone, Copy, Debug, PartialEq, Eq, Structural)]
pub enum AstType {
    Terminal,
    NonTerminal(NonTerminal),
}

/// A node of the syntax tree: a leaf holds one token, an inner node holds its children in
/// source order. `invalid_ast` is set when the node or a node below it failed to parse.
#[derive(Debug)]
pub struct Ast {
    pub children: Option<Vec<Ast>>,
    pub token: Option<Token>,
    pub ast_type: AstType,
    pub invalid_ast: bool,
    pub invalid_root_ast: bool,
}

/// The text of a leaf: the canonical text of its payload, or the lexeme of an invalid token.
pub open spec fn leaf_text(t: TokenView) -> Seq<char> {
    match t.token {
        Some(m) => display_text(m),
        None => t.base,
    }
}

/// `n` spaces.
pub open spec fn spaces(n: int) -> Seq<char>
    decreases n,
{
    if n <= 0 {
        Seq::empty()
    } else {
        spaces(n - 1) + seq![' ']
    }
}

/// Two more spaces of indentation; it stops growing at the largest machine integer.
pub open spec fn dump_step(depth: int) -> int {
    if depth <= usize::MAX - 2 {
        depth + 2
    } else {
        depth
    }
}

/// The tree dump of `a` at indentation `depth`: one line per node, `NonTerminal(Name)` for an
/// inner node and the token text for a leaf, children two spaces deeper.
pub open spec fn dump(a: Ast, depth: int) -> Seq<char>
    decreases a, 1int,
{
    match a.ast_type {
        AstType::Terminal => spaces(depth) + match a.token {
            Some(t) => leaf_text(t@),
            None => Seq::empty(),
        } + seq!['\n'],
        AstType::NonTerminal(k) => match a.children {
            None => spaces(depth) + "NonTerminal("@ + k.name() + ")"@ + seq!['\n'],
            Some(c) => {
                proof {
                    vstd::std_specs::vec::axiom_vec_decreases_to_view(c);
                }
                spaces(depth) + "NonTerminal("@ + k.name() + ")"@ + seq!['\n'] + dump_list(c@, 0, dump_step(depth))
            },
        },
    }
}

/// The tree dumps of `cs[i..]`, one after another.
pub open spec fn dump_list(cs: Seq<Ast>, i: int, depth: int) -> Seq<char>
    decreases cs, cs.len() - i,
{
    if i < 0 || i >= cs.len() {
        Seq::empty()
    } else {
        dump(cs[i], depth) + dump_list(cs, i + 1, depth)
    }
}

/// A tree as mathematical values: a leaf is its token, an inner node its production and the
/// models of its children in order.
pub enum AstModel {
    Leaf(TokenView),
    Node(NonTerminal, Seq<AstModel>),
}

/// The model of a tree.
pub open spec fn model(a: Ast) -> AstModel
    decreases a, 1int,
{
    match a.ast_type {
        AstType::Terminal => AstModel::Leaf(a.leaf_token()),
        AstType::NonTerminal(k) => match a.children {
            None => AstModel::Node(k, Seq::empty()),
            Some(c) => {
                proof {
                    vstd::std_specs::vec::axiom_vec_decreases_to_view(c);
                }
                AstModel::Node(k, models(c@, c@.len() as int))
            },
        },
    }
}

/// The models of the first `n` trees of `cs`.
pub open spec fn models(cs: Seq<Ast>, n: int) -> Seq<AstModel>
    decreases cs, n,
{
    if n <= 0 || n > cs.len() {
        Seq::empty()
    } else {
        models(cs, n - 1).push(model(cs[n - 1]))
    }
}

/// The models of all the trees of `cs`.
pub open spec fn models_of(cs: Seq<Ast>) -> Seq<AstModel> {
    models(cs, cs.len() as int)
}

pub proof fn lemma_models_prefix(a: Seq<Ast>, b: Seq<Ast>, n: int)
    requires
        0 <= n <= a.len(),
        n <= b.len(),
        forall|i: int| 0 <= i < n ==> a[i] == b[i],
    ensures
        models(a, n) == models(b, n),
    decreases n,
{
    if n > 0 {
        lemma_models_prefix(a, b, n - 1);
    }
}

pub proof fn lemma_models_len(a: Seq<Ast>, n: int)
    requires
        0 <= n <= a.len(),
    ensures
        models(a, n).len() == n,
        forall|i: int| 0 <= i < n ==> #[trigger] models(a, n)[i] == model(a[i]),
    decreases n,
{
    if n > 0 {
        lemma_models_len(a, n - 1);
    }
}

/// The models of a sequence grown by one tree.
pub proof fn lemma_models_push(a: Seq<Ast>, x: Ast)
    ensures
        models_of(a.push(x)) == models_of(a).push(model(x)),
{
    lemma_models_prefix(a.push(x), a, a.len() as int);
}

/// The models of two sequences put together.
pub proof fn lemma_models_concat(a: Seq<Ast>, b: Seq<Ast>)
    ensures
        models_of(a + b) == models_of(a) + models_of(b),
{
    lemma_models_len(a + b, (a + b).len() as int);
    lemma_models_len(a, a.len() as int);
    lemma_models_len(b, b.len() as int);
    assert(models_of(a + b) =~= models_of(a) + models_of(b));
}

/// The models of a sequence given element by element.
pub proof fn lemma_models_elems(a: Seq<Ast>)
    ensures
        models_of(a).len() == a.len(),
        forall|i: int| 0 <= i < a.len() ==> #[trigger] models_of(a)[i] == model(a[i]),
{
    lemma_models_len(a, a.len() as int);
}

/// The models of a one-tree sequence.
pub proof fn lemma_models_one(x: Ast)
    ensures
        models_of(seq![x]) == seq![model(x)],
{
    lemma_models_elems(seq![x]);
    assert(models_of(seq![x]) =~= seq![model(x)]);
}

/// The models of a two-tree sequence.
pub proof fn lemma_models_two(x: Ast, y: Ast)
    ensures
        models_of(seq![x, y]) == seq![model(x), model(y)],
{
    lemma_models_elems(seq![x, y]);
    assert(models_of(seq![x, y]) =~= seq![model(x), model(y)]);
}

/// Some node of `children` is marked invalid.
pub open spec fn any_invalid(children: Seq<Ast>) -> bool {
    exists|i: int| 0 <= i < children.len() && (#[trigger] children[i]).invalid_ast
}

impl Ast {
    /// The node is a leaf with a token, or an inner node with a list of children.
    pub open spec fn well_shaped(&self) -> bool {
        match self.ast_type {
            AstType::Terminal => self.token is Some && self.children is None,
            AstType::NonTerminal(_) => self.token is None && self.children is Some,
        }
    }

    /// The token of a leaf.
    pub open spec fn leaf_token(&self) -> TokenView {
        self.token->0@
    }

    /// The children of an inner node (empty for a leaf).
    pub open spec fn kids(&self) -> Seq<Ast> {
        match self.children {
            Some(c) => c@,
            None => Seq::empty(),
        }
    }

    /// The node is an inner node of kind `k`.
    pub open spec fn is_node(&self, k: NonTerminal) -> bool {
        self.ast_type == AstType::NonTerminal(k) && self.well_shaped()
    }

    pub fn new_leaf(token: Token) -> (r: Ast)
        ensures
            model(r) == AstModel::Leaf(token@),
            r.ast_type == AstType::Terminal,
            r.well_shaped(),
            r.leaf_token() == token@,
            !r.invalid_ast,
    {
        Ast {
            children: None,
            token: Some(token),
            ast_type: AstType::Terminal,
            invalid_ast: false,
            invalid_root_ast: false,
        }
    }

    /// An inner node over `children`; it is invalid exactly when one of them is.
    pub fn new_node_with_leaves(node_type: NonTerminal, children: Vec<Ast>) -> (r: Ast)
        ensures
            model(r) == AstModel::Node(node_type, models_of(children@)),
            r.is_node(node_type),
            r.kids() == children@,
            r.invalid_ast == any_invalid(children@),
            !r.invalid_root_ast,
    {
        let mut has_invalid_ast = false;
        let mut i: usize = 0;
        while i < children.len()
            invariant
                i <= children@.len(),
                has_invalid_ast == exists|j: int| 0 <= j < i && (#[trigger] children@[j]).invalid_ast,
            decreases children@.len() - i,
        {
            if children[i].invalid_ast {
                has_invalid_ast = true;
            }
            i += 1;
        }
        Ast {
            children: Some(children),
            token: None,
            ast_type: AstType::NonTerminal(node_type),
            invalid_ast: has_invalid_ast,
            invalid_root_ast: false,
        }
    }

    /// Appends a child to an inner node; the node becomes invalid if the child is.
    pub fn add_child(&mut self, ast: Ast)
        requires
            old(self).children is Some,
        ensures
            final(self).kids() == old(self).kids().push(ast),
            final(self).children is Some,
            final(self).ast_type == old(self).ast_type,
            final(self).token == old(self).token,
            final(self).invalid_ast == (old(self).invalid_ast || ast.invalid_ast),
            final(self).invalid_root_ast == old(self).invalid_root_ast,
    {
        let invalid = ast.invalid_ast;
        match &mut self.children {
            Some(c) => c.push(ast),
            None => {},
        }
        if invalid {
            self.invalid_ast = true;
        }
    }

    /// Appends children to an inner node, in order.
    pub fn add_children(&mut self, ast: Vec<Ast>)
        requires
            old(self).children is Some,
        ensures
            final(self).kids() == old(self).kids() + ast@,
            final(self).children is Some,
            final(self).ast_type == old(self).ast_type,
            final(self).token == old(self).token,
            final(self).invalid_ast == (old(self).invalid_ast || any_invalid(ast@)),
    {
        let mut rest = ast;
        let ghost all = rest@;
        let mut done: usize = 0;
        let total = rest.len();
        assert(rest@ =~= all.subrange(0, all.len() as int));
        let ghost start = self.kids();
        let ghost start_invalid = self.invalid_ast;
        while rest.len() > 0
            invariant
                self.children is Some,
                self.ast_type == old(self).ast_type,
                self.token == old(self).token,
                rest@.len() + done == all.len(),
                all.len() == total,
                rest@ == all.subrange(done as int, all.len() as int),
                self.kids() == start + all.subrange(0, done as int),
                self.invalid_ast == (start_invalid || any_invalid(
                    all.subrange(0, done as int),
                )),
                start == old(self).kids(),
                start_invalid == old(self).invalid_ast,
            decreases rest@.len(),
        {
            let ghost k = done as int;
            let item = rest.remove(0);
            proof {
                assert(rest@ =~= all.subrange(k + 1, all.len() as int));
                assert(all.subrange(0, k + 1) =~= all.subrange(0, k).push(item));
                if item.invalid_ast {
                    assert(all.subrange(0, k + 1)[k] == item);
                }
                if any_invalid(all.subrange(0, k)) {
                    let j = choose|j: int| 0 <= j < k && (#[trigger] all.subrange(0, k)[j]).invalid_ast;
                    assert(all.subrange(0, k + 1)[j] == all.subrange(0, k)[j]);
                }
                if any_invalid(all.subrange(0, k + 1)) && !item.invalid_ast {
                    let j = choose|j: int| 0 <= j < k + 1 && (#[trigger] all.subrange(0, k + 1)[j]).invalid_ast;
                    assert(all.subrange(0, k)[j] == all.subrange(0, k + 1)[j]);
                }
            }
            self.add_child(item);
            done = done + 1;
            proof {
                assert(self.kids() =~= start + all.subrange(0, done as int));
            }
        }
        proof {
            assert(all.subrange(0, all.len() as int) =~= all);
        }
    }

    /// An indented dump of the tree, one line per node.
    pub fn unparse(&self) -> (r: String)
        ensures
            r@ == dump(*self, 0),
    {
        self.unparse_with_depth(self, 0)
    }

    fn unparse_with_depth(&self, ast: &Ast, depth: usize) -> (r: String)
        ensures
            r@ == dump(*ast, depth as int),
        decreases *ast,
    {
        let mut unparsed = String::new();
        let mut k: usize = 0;
        while k < depth
            invariant
                k <= depth,
                unparsed@ == spaces(k as int),
            decreases depth - k,
        {
            unparsed.append(" ");
            k += 1;
            proof {
                reveal_strlit(" ");
                assert(unparsed@ =~= spaces(k as int));
            }
        }
        proof {
            reveal_strlit("\n");
        }
        match ast.ast_type {
            AstType::Terminal => {
                match &ast.token {
                    Some(t) => match t.get_token() {
                        Some(b) => {
                            let s = b.to_string();
                            unparsed.append(s.as_str());
                        },
                        None => {
                            unparsed.append(t.get_base_text());
                        },
                    },
                    None => {},
                }
                unparsed.append("\n");
                assert(unparsed@ =~= dump(*ast, depth as int));
            },
            AstType::NonTerminal(kind) => {
                unparsed.append("NonTerminal(");
                unparsed.append(kind.as_str());
                unparsed.append(")");
                unparsed.append("\n");
                match &ast.children {
                    None => {
                        assert(unparsed@ =~= dump(*ast, depth as int));
                    },
                    Some(c) => {
                        proof {
                            vstd::std_specs::vec::axiom_vec_decreases_to_view(*c);
                        }
                        let next = if depth <= usize::MAX - 2 {
                            depth + 2
                        } else {
                            depth
                        };
                        let ghost head = unparsed@;
                        let mut i: usize = 0;
                        while i < c.len()
                            invariant
                                ast.children is Some,
                                ast.children->0 == *c,
                                i <= c@.len(),
                                head + dump_list(c@, 0, next as int) == unparsed@ + dump_list(
                                    c@,
                                    i as int,
                                    next as int,
                                ),
                            decreases c@.len() - i,
                        {
                            proof {
                                vstd::std_specs::vec::axiom_vec_decreases_to_view(*c);
                            }
                            let part = self.unparse_with_depth(&c[i], next);
                            unparsed.append(part.as_str());
                            proof {
                                assert(unparsed@ + dump_list(c@, i + 1, next as int) =~= unparsed@
                                    .subrange(0, unparsed@.len() - part@.len()) + dump_list(
                                    c@,
                                    i as int,
                                    next as int,
                                ));
                            }
                            i += 1;
                        }
                        assert(dump_list(c@, c@.len() as int, next as int) =~= Seq::<char>::empty());
                        assert(unparsed@ =~= dump(*ast, depth as int));
                    },
                }
            },
        }
        unparsed
    }

    pub fn is_invalid(&self) -> (r: bool)
        ensures
            r == self.invalid_ast,
    {
        self.invalid_ast
    }

    /// Marks this node as one whose own parse failed.
    pub fn set_invalid(&mut self)
        ensures
            final(self).invalid_ast,
            final(self).invalid_root_ast,
            final(self).children == old(self).children,
            final(self).token == old(self).token,
            final(self).ast_type == old(self).ast_type,
    {
        self.invalid_ast = true;
        self.invalid_root_ast = true;
    }
}

} // verus!
