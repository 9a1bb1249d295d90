use vstd::prelude::*;

use crate::ast::{leaf_text, Ast, AstType};
use crate::non_terminal::NonTerminal;
use crate::semantic_tree::{files_well_formed, SemanticTree};

verus! {

/// `depth` levels of indentation, four spaces each.
pub open spec fn indent(depth: int) -> Seq<char>
    decreases depth,
{
    if depth <= 0 {
        Seq::empty()
    } else {
        indent(depth - 1) + "    "@
    }
}

proof fn lemma_indent_len(depth: int)
    ensures
        depth >= 0 ==> indent(depth).len() == 4 * depth,
    decreases depth,
{
    if depth > 0 {
        lemma_indent_len(depth - 1);
        reveal_strlit("    ");
    }
}

/// A line break followed by the indentation of `depth`.
pub open spec fn newline(depth: int) -> Seq<char> {
    seq!['\n'] + indent(depth)
}

/// One level deeper; indentation stops growing at the largest machine integer.
pub open spec fn deeper(depth: int) -> int {
    if depth < usize::MAX {
        depth + 1
    } else {
        depth
    }
}

/// Drops the last four characters (one level of indentation).
pub open spec fn trim_indent(s: Seq<char>) -> Seq<char> {
    s.subrange(0, s.len() - 4)
}

/// The node is an inner node whose children are separated by a space when printed: the
/// binary operator levels.
pub open spec fn is_binary(k: NonTerminal) -> bool {
    k == NonTerminal::LogicalOrExpression || k == NonTerminal::LogicalAndExpression || k
        == NonTerminal::BitwiseOrExpression || k == NonTerminal::BitwiseXorExpression || k
        == NonTerminal::BitwiseAndExpression || k == NonTerminal::EqualityExpression || k
        == NonTerminal::RelationalExpression || k == NonTerminal::ShiftExpression || k
        == NonTerminal::AdditiveExpression || k == NonTerminal::MultiplicativeExpression
}

/// The child `i` printed, or nothing if there is none.
pub open spec fn emit_at(cs: Seq<Ast>, i: int, depth: int) -> Seq<char>
    decreases cs, 0int,
{
    if 0 <= i < cs.len() {
        emit(cs[i], depth)
    } else {
        Seq::empty()
    }
}

/// The source text that the unparser writes for `a` at indentation `depth`.
pub open spec fn emit(a: Ast, depth: int) -> Seq<char>
    decreases a, 1int,
{
    match a.ast_type {
        AstType::Terminal => match a.token {
            Some(t) => leaf_text(t@),
            None => Seq::empty(),
        },
        AstType::NonTerminal(k) => match a.children {
            None => Seq::empty(),
            Some(c) => {
            proof {
                vstd::std_specs::vec::axiom_vec_decreases_to_view(c);
            }
            let cs = c@;
            match k {
                NonTerminal::ConstDeclaration => "const "@ + emit_at(cs, 0, depth),
                NonTerminal::LetDeclaration => "let "@ + emit_at(cs, 0, depth),
                NonTerminal::DeclarationBody => emit_at(cs, 0, depth) + " = "@ + emit_at(
                    cs,
                    1,
                    depth,
                ) + ";"@ + newline(depth),
                NonTerminal::Expression => emit_at(cs, 0, depth),
                NonTerminal::ExpressionStatement => emit_at(cs, 0, depth) + ";"@ + newline(depth),
                NonTerminal::FunctionExpression => "() => "@ + emit_at(cs, 0, depth),
                NonTerminal::CompoundExpression => {
                    let body = "{"@ + newline(deeper(depth)) + emit_join(
                        cs,
                        0,
                        deeper(depth),
                        ""@,
                    );
                    if cs.len() == 0 || cs[cs.len() - 1].ast_type != AstType::NonTerminal(
                        NonTerminal::Expression,
                    ) {
                        trim_indent(body) + "}"@
                    } else {
                        body + newline(depth) + "}"@
                    }
                },
                NonTerminal::Args => "("@ + emit_join(cs, 0, depth, ","@) + ")"@,
                NonTerminal::ParenthesizedExpression => "("@ + emit_at(cs, 0, depth) + ")"@,
                NonTerminal::ExponentiationExpression => emit_at(cs, 0, depth) + " ** "@ + emit_at(
                    cs,
                    1,
                    depth,
                ),
                NonTerminal::ExportableConstDeclaration => if cs.len() == 1 {
                    emit_at(cs, 0, depth)
                } else if cs.len() == 2 {
                    "export "@ + emit_at(cs, 1, depth)
                } else if cs.len() == 3 {
                    "export default "@ + emit_at(cs, 2, depth)
                } else {
                    Seq::empty()
                },
                NonTerminal::ImportDeclaration => emit_at(cs, 0, depth) + ";"@ + newline(depth),
                NonTerminal::DefaultImportDeclaration => "import "@ + emit_at(cs, 0, depth)
                    + " from "@ + emit_at(cs, 1, depth),
                NonTerminal::NamedImportDeclaration => if cs.len() == 0 {
                    Seq::empty()
                } else {
                    "import { "@ + emit_join(cs.drop_last(), 0, depth, ", "@) + " } from "@
                        + emit_at(cs, cs.len() - 1, depth)
                },
                NonTerminal::Attribute => Seq::empty(),
                _ => if is_binary(k) {
                    emit_join(cs, 0, depth, " "@)
                } else {
                    emit_join(cs, 0, depth, ""@)
                },
            }
            },
        },
    }
}

/// The children `cs[i..]` printed one after another, with `sep` between them.
pub open spec fn emit_join(cs: Seq<Ast>, i: int, depth: int, sep: Seq<char>) -> Seq<char>
    decreases cs, cs.len() - i,
{
    if i < 0 || i >= cs.len() {
        Seq::empty()
    } else if i == cs.len() - 1 {
        emit(cs[i], depth)
    } else {
        emit(cs[i], depth) + sep + emit_join(cs, i + 1, depth, sep)
    }
}

/// What remains to be written of `emit_join(cs, 0, ..)` once `cs[..i]` has been written.
pub open spec fn join_tail(cs: Seq<Ast>, i: int, depth: int, sep: Seq<char>) -> Seq<char> {
    if i == 0 {
        emit_join(cs, 0, depth, sep)
    } else if i < cs.len() {
        sep + emit_join(cs, i, depth, sep)
    } else {
        Seq::empty()
    }
}

/// The call that makes a file run its entry point, if the entry point is declared in file
/// `file`.
pub open spec fn entry_call(entry: Option<(int, Seq<char>)>, file: int) -> Seq<char> {
    match entry {
        Some((f, name)) => if f == file {
            "\n"@ + name + "();\n"@
        } else {
            Seq::empty()
        },
        None => Seq::empty(),
    }
}

/// Writes parsed files back out as normalized source text.
pub struct Builder<'a> {
    semantic_tree: &'a SemanticTree<'a>,
    result: String,
    debug_mode: bool,
}

impl<'a> Builder<'a> {
    pub fn new(tree: &'a SemanticTree<'a>) -> (r: Builder<'a>)
        ensures
            r.tree() == tree,
            r.text().len() == 0,
            !r.debug(),
    {
        Builder { semantic_tree: tree, debug_mode: false, result: String::new() }
    }

    pub closed spec fn tree(&self) -> &'a SemanticTree<'a> {
        self.semantic_tree
    }

    /// The text written so far.
    pub closed spec fn text(&self) -> Seq<char> {
        self.result@
    }

    pub closed spec fn debug(&self) -> bool {
        self.debug_mode
    }

    /// Asks for the symbol table to be shown alongside the output.
    pub fn set_debug_mode(&mut self)
        ensures
            final(self).debug(),
            final(self).tree() == old(self).tree(),
            final(self).text() == old(self).text(),
    {
        self.debug_mode = true;
    }

    pub fn is_debug_mode(&self) -> (r: bool)
        ensures
            r == self.debug(),
    {
        self.debug_mode
    }

    /// The text written so far.
    pub fn get_result(&self) -> (r: String)
        ensures
            r@ == self.text(),
    {
        self.result.clone()
    }

    /// Regenerates the source text of every file, in order: its declarations, and, in the
    /// file that declares the entry point, a call of it at the end.
    pub fn unparse(&mut self) -> (r: Vec<(String, String)>)
        requires
            old(self).tree().wf(),
            files_well_formed(old(self).tree().files()),
        ensures
            final(self).tree() == old(self).tree(),
            r@.len() == old(self).tree().files().len(),
            forall|k: int|
                0 <= k < r@.len() ==> (#[trigger] r@[k]).0@ == old(self).tree().files()[k].0@
                    && r@[k].1@ == emit_join(old(self).tree().files()[k].1.kids(), 0, 0, ""@)
                    + entry_call(old(self).tree().entry(), k),
    {
        let tree = self.semantic_tree;
        let n = tree.file_count();
        let entry_name = tree.get_entrypoint_func_name();
        let entry_file = tree.get_entrypoint_file();
        let mut out: Vec<(String, String)> = Vec::new();
        let mut k: usize = 0;
        while k < n
            invariant
                self.semantic_tree == tree,
                tree.wf(),
                n == tree.files().len(),
                k <= n,
                out@.len() == k,
                entry_name matches Some(s) ==> tree.entry() matches Some(e) && s@ == e.1,
                entry_name is None <==> tree.entry() is None,
                entry_file matches Some(f) ==> tree.entry() matches Some(e) && f as int == e.0,
                entry_file is None <==> tree.entry() is None,
                forall|j: int|
                    0 <= j < k ==> (#[trigger] out@[j]).0@ == tree.files()[j].0@ && out@[j].1@
                        == emit_join(tree.files()[j].1.kids(), 0, 0, ""@) + entry_call(
                        tree.entry(),
                        j,
                    ),
            decreases n - k,
        {
            let path = tree.file_path(k).clone();
            let ast: &Ast = tree.file_ast(k);
            self.result = String::new();
            let empty: Vec<Ast> = Vec::new();
            let children: &Vec<Ast> = match &ast.children {
                Some(c) => c,
                None => &empty,
            };
            assert(children@ == ast.kids());
            self.unparse_join(children, 0, "");
            match (&entry_name, entry_file) {
                (Some(name), Some(f)) => {
                    if f == k {
                        self.result.append("\n");
                        self.result.append(name.as_str());
                        self.result.append("();\n");
                    }
                },
                _ => {},
            }
            out.push((path, self.result.clone()));
            k += 1;
        }
        out
    }

    /// Appends `depth` levels of indentation after a line break.
    fn add_lf_with_depth_space(&mut self, depth: usize)
        ensures
            final(self).result@ == old(self).result@ + newline(depth as int),
            final(self).semantic_tree == old(self).semantic_tree,
    {
        self.result.append("\n");
        let mut i: usize = 0;
        while i < depth
            invariant
                i <= depth,
                self.result@ == old(self).result@ + "\n"@ + indent(i as int),
                self.semantic_tree == old(self).semantic_tree,
            decreases depth - i,
        {
            self.result.append("    ");
            i += 1;
        }
        proof {
            reveal_strlit("\n");
            assert(newline(depth as int) =~= "\n"@ + indent(depth as int));
        }
    }

    /// Appends the children `cs` printed one after another, with `sep` between them.
    fn unparse_join(&mut self, cs: &Vec<Ast>, depth: usize, sep: &str)
        ensures
            final(self).result@ == old(self).result@ + emit_join(cs@, 0, depth as int, sep@),
            final(self).semantic_tree == old(self).semantic_tree,
        decreases cs@, 2int,
    {
        let mut i: usize = 0;
        while i < cs.len()
            invariant
                i <= cs@.len(),
                old(self).result@ + emit_join(cs@, 0, depth as int, sep@) == self.result@
                    + join_tail(cs@, i as int, depth as int, sep@),
                self.semantic_tree == old(self).semantic_tree,
            decreases cs@.len() - i,
        {
            if i > 0 {
                self.result.append(sep);
            }
            self.unparse_rec(&cs[i], depth);
            proof {
                assert(join_tail(cs@, i as int, depth as int, sep@) =~= (if i > 0 {
                    sep@
                } else {
                    Seq::empty()
                }) + emit(cs@[i as int], depth as int) + join_tail(cs@, i + 1, depth as int, sep@));
            }
            i += 1;
        }
    }

    /// Appends the text of `ast` at indentation `depth`.
    fn unparse_rec(&mut self, ast: &Ast, depth: usize)
        ensures
            final(self).result@ == old(self).result@ + emit(*ast, depth as int),
            final(self).semantic_tree == old(self).semantic_tree,
        decreases *ast, 1int,
    {
        let cs: &Vec<Ast> = match &ast.children {
            Some(c) => c,
            None => &Vec::new(),
        };
        proof {
            vstd::std_specs::vec::axiom_vec_decreases_to_view(*cs);
        }
        if ast.ast_type != AstType::Terminal && ast.children.is_none() {
            return;
        }
        match ast.ast_type {
            AstType::Terminal => {
                match &ast.token {
                    Some(t) => {
                        match t.get_token() {
                            Some(b) => {
                                let s = b.to_string();
                                self.result.append(s.as_str());
                            },
                            None => {
                                self.result.append(t.get_base_text());
                            },
                        }
                    },
                    None => {},
                }
            },
            AstType::NonTerminal(k) => {
                match k {
                    NonTerminal::ConstDeclaration => {
                        self.result.append("const ");
                        self.unparse_child(cs, 0, depth);
                    },
                    NonTerminal::LetDeclaration => {
                        self.result.append("let ");
                        self.unparse_child(cs, 0, depth);
                    },
                    NonTerminal::DeclarationBody => {
                        self.unparse_child(cs, 0, depth);
                        self.result.append(" = ");
                        self.unparse_child(cs, 1, depth);
                        self.result.append(";");
                        self.add_lf_with_depth_space(depth);
                    },
                    NonTerminal::Expression => {
                        self.unparse_child(cs, 0, depth);
                    },
                    NonTerminal::ExpressionStatement => {
                        self.unparse_child(cs, 0, depth);
                        self.result.append(";");
                        self.add_lf_with_depth_space(depth);
                    },
                    NonTerminal::FunctionExpression => {
                        self.result.append("() => ");
                        self.unparse_child(cs, 0, depth);
                    },
                    NonTerminal::CompoundExpression => {
                        self.unparse_compound(ast, depth);
                    },
                    NonTerminal::Args => {
                        self.result.append("(");
                        self.unparse_join(cs, depth, ",");
                        self.result.append(")");
                    },
                    NonTerminal::ParenthesizedExpression => {
                        self.result.append("(");
                        self.unparse_child(cs, 0, depth);
                        self.result.append(")");
                    },
                    NonTerminal::ExponentiationExpression => {
                        self.unparse_child(cs, 0, depth);
                        self.result.append(" ** ");
                        self.unparse_child(cs, 1, depth);
                    },
                    NonTerminal::ExportableConstDeclaration => {
                        if cs.len() == 1 {
                            self.unparse_child(cs, 0, depth);
                        } else if cs.len() == 2 {
                            self.result.append("export ");
                            self.unparse_child(cs, 1, depth);
                        } else if cs.len() == 3 {
                            self.result.append("export default ");
                            self.unparse_child(cs, 2, depth);
                        }
                    },
                    NonTerminal::ImportDeclaration => {
                        self.unparse_child(cs, 0, depth);
                        self.result.append(";");
                        self.add_lf_with_depth_space(depth);
                    },
                    NonTerminal::DefaultImportDeclaration => {
                        self.result.append("import ");
                        self.unparse_child(cs, 0, depth);
                        self.result.append(" from ");
                        self.unparse_child(cs, 1, depth);
                    },
                    NonTerminal::NamedImportDeclaration => {
                        self.unparse_named_import(ast, depth);
                    },
                    NonTerminal::Attribute => {},
                    _ => {
                        if k == NonTerminal::LogicalOrExpression || k == NonTerminal::LogicalAndExpression
                            || k == NonTerminal::BitwiseOrExpression || k
                            == NonTerminal::BitwiseXorExpression || k
                            == NonTerminal::BitwiseAndExpression || k
                            == NonTerminal::EqualityExpression || k
                            == NonTerminal::RelationalExpression || k == NonTerminal::ShiftExpression
                            || k == NonTerminal::AdditiveExpression || k
                            == NonTerminal::MultiplicativeExpression {
                            self.unparse_join(cs, depth, " ");
                        } else {
                            self.unparse_join(cs, depth, "");
                        }
                    },
                }
            },
        }
    }

    /// Appends a compound block: its items one level deeper, then the closing brace on the
    /// block's own level.
    fn unparse_compound(&mut self, ast: &Ast, depth: usize)
        requires
            ast.ast_type == AstType::NonTerminal(NonTerminal::CompoundExpression),
            ast.children is Some,
        ensures
            final(self).result@ == old(self).result@ + emit(*ast, depth as int),
            final(self).semantic_tree == old(self).semantic_tree,
        decreases *ast, 0int,
    {
        let cs: &Vec<Ast> = match &ast.children {
            Some(c) => c,
            None => {
                return;
            },
        };
        proof {
            vstd::std_specs::vec::axiom_vec_decreases_to_view(*cs);
        }
        let inner = if depth < usize::MAX {
            depth + 1
        } else {
            depth
        };
        let ghost start = self.result@;
        self.result.append("{");
        self.add_lf_with_depth_space(inner);
        self.unparse_join(cs, inner, "");
        let last_is_value = cs.len() > 0 && cs[cs.len() - 1].ast_type
            == AstType::NonTerminal(NonTerminal::Expression);
        let ghost body = "{"@ + newline(inner as int) + emit_join(
            cs@,
            0,
            inner as int,
            ""@,
        );
        proof {
            lemma_indent_len(inner as int);
            reveal_strlit("{");
            assert(self.result@ =~= start + body);
        }
        if last_is_value {
            self.add_lf_with_depth_space(depth);
        } else {
            self.trim_indent();
            proof {
                assert(trim_indent(start + body) =~= start + trim_indent(body));
            }
        }
        self.result.append("}");
    }

    /// Appends a named import: `import { a, b } from "x"`.
    fn unparse_named_import(&mut self, ast: &Ast, depth: usize)
        requires
            ast.ast_type == AstType::NonTerminal(NonTerminal::NamedImportDeclaration),
            ast.children is Some,
        ensures
            final(self).result@ == old(self).result@ + emit(*ast, depth as int),
            final(self).semantic_tree == old(self).semantic_tree,
        decreases *ast, 0int,
    {
        let cs: &Vec<Ast> = match &ast.children {
            Some(c) => c,
            None => {
                return;
            },
        };
        proof {
            vstd::std_specs::vec::axiom_vec_decreases_to_view(*cs);
        }
        if cs.len() > 0 {
            self.result.append("import { ");
            let mut i: usize = 0;
            let last = cs.len() - 1;
            let ghost names = cs@.drop_last();
            while i < last
                invariant
                    ast.children is Some,
                    ast.children->0 == *cs,
                    last == cs@.len() - 1,
                    names == cs@.drop_last(),
                    i <= last,
                    old(self).result@ + "import { "@ + emit_join(names, 0, depth as int, ", "@)
                        == self.result@ + join_tail(names, i as int, depth as int, ", "@),
                    self.semantic_tree == old(self).semantic_tree,
                decreases last - i,
            {
                if i > 0 {
                    self.result.append(", ");
                }
                proof {
                    vstd::std_specs::vec::axiom_vec_decreases_to_view(*cs);
                }
                self.unparse_child(cs, i, depth);
                proof {
                    assert(names[i as int] == cs@[i as int]);
                    assert(join_tail(names, i as int, depth as int, ", "@) =~= (if i > 0 {
                        ", "@
                    } else {
                        Seq::empty()
                    }) + emit(names[i as int], depth as int) + join_tail(
                        names,
                        i + 1,
                        depth as int,
                        ", "@,
                    ));
                }
                i += 1;
            }
            self.result.append(" } from ");
            self.unparse_child(cs, last, depth);
        }
    }

    /// Appends child `i` of `cs`, if there is one.
    fn unparse_child(&mut self, cs: &Vec<Ast>, i: usize, depth: usize)
        ensures
            final(self).result@ == old(self).result@ + emit_at(cs@, i as int, depth as int),
            final(self).semantic_tree == old(self).semantic_tree,
        decreases cs@, 2int,
    {
        if i < cs.len() {
            self.unparse_rec(&cs[i], depth);
        }
    }

    /// Removes the last level of indentation written.
    fn trim_indent(&mut self)
        requires
            old(self).result@.len() >= 4,
        ensures
            final(self).result@ == trim_indent(old(self).result@),
            final(self).semantic_tree == old(self).semantic_tree,
    {
        let n = self.result.as_str().unicode_len();
        let kept = String::from_str(self.result.as_str().substring_char(0, n - 4));
        self.result = kept;
    }
}

} // verus!
