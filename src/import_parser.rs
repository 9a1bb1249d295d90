use vstd::prelude::*;

use crate::ast::{lemma_models_one, lemma_models_push, lemma_models_two, model, models_of, Ast, AstModel};
use crate::grammar::{g_default_import, g_import, g_named_import, g_names, list_end, list_of};
use crate::invalid_syntax::ParseError;
use crate::non_terminal::NonTerminal;
use crate::parser::{advanced, clean, grows, is_ident_leaf, is_reserved, is_string_leaf, Parser};
use crate::reserved_word::ReservedWord;
use crate::token::TokenBase;

verus! {

impl<'a> Parser<'a> {
    // NamedImportDeclaration = "import" , "{" , Identifier , { "," , Identifier } , "}" , "from" , String ;
    #[verifier::rlimit(50)]
    pub fn parse_named_import_declaration(&mut self) -> (r: Result<Ast, ParseError>)
        requires
            old(self).tokens.wf(),
        ensures
            advanced(old(self), final(self)),
            r is Err ==> old(self).errs().len() < final(self).errs().len(),
            r matches Ok(a) ==> a.is_node(NonTerminal::NamedImportDeclaration) && a.kids().len() >= 1
                && is_string_leaf(a.kids()[a.kids().len() - 1]) && forall|i: int|
                0 <= i < a.kids().len() - 1 ==> is_ident_leaf(#[trigger] a.kids()[i]),
            clean(old(self), final(self), r, g_named_import(old(self).tokens.toks(), old(self).tokens.pos())),
    {
        let ghost start = self.tokens.pos();
        let ghost toks = self.tokens.toks();
        let ghost acc = g_named_import(toks, start) is Some;
        let ghost total = g_names(toks, start + 2);
        self.tokens.next();
        self.consume_or_skip(ReservedWord::LeftCurly);
        let mut asts: Vec<Ast> = Vec::new();
        proof {
            assert(models_of(asts@) =~= Seq::<AstModel>::empty());
        }
        loop
            invariant_except_break
                acc ==> g_names(toks, self.tokens.pos()) is Some && models_of(asts@) + list_of(
                    g_names(toks, self.tokens.pos()),
                ) == list_of(total) && list_end(g_names(toks, self.tokens.pos())) == list_end(total)
                    && self.errs() == old(self).errs(),
            invariant
                self.tokens.wf(),
                self.tokens.toks() == old(self).tokens.toks(),
                toks == old(self).tokens.toks(),
                start == old(self).tokens.pos(),
                start <= self.tokens.pos(),
                start < self.tokens.toks().len() ==> start < self.tokens.pos(),
                grows(old(self).errs(), self.errs()),
                self.ast == old(self).ast,
                forall|i: int| 0 <= i < asts@.len() ==> is_ident_leaf(#[trigger] asts@[i]),
                acc == (g_named_import(toks, start) is Some),
                total == g_names(toks, start + 2),
            ensures
                self.tokens.wf(),
                self.tokens.toks() == old(self).tokens.toks(),
                start <= self.tokens.pos(),
                start < self.tokens.toks().len() ==> start < self.tokens.pos(),
                grows(old(self).errs(), self.errs()),
                self.ast == old(self).ast,
                forall|i: int| 0 <= i < asts@.len() ==> is_ident_leaf(#[trigger] asts@[i]),
                acc ==> models_of(asts@) == list_of(total) && self.tokens.pos() == list_end(total)
                    && self.errs() == old(self).errs(),
            decreases self.tokens.remaining(),
        {
            let ghost p = self.tokens.pos();
            let ghost before = asts@;
            match self.tokens.look_ahead(1) {
                Some(TokenBase::Identifier(_)) => {
                    let id = Ast::new_leaf(self.tokens.next_token().unwrap());
                    asts.push(id);
                    proof {
                        lemma_models_push(before, id);
                    }
                    let next = self.tokens.look_ahead(1);
                    if is_reserved(&next, ReservedWord::Comma) {
                        self.tokens.next();
                        proof {
                            if acc {
                                assert(models_of(asts@) + list_of(g_names(toks, self.tokens.pos()))
                                    =~= models_of(before) + list_of(g_names(toks, p)));
                            }
                        }
                    } else if is_reserved(&next, ReservedWord::RightCurly) {
                        self.tokens.next();
                        proof {
                            if acc {
                                assert(models_of(asts@) =~= models_of(before) + list_of(
                                    g_names(toks, p),
                                ));
                            }
                        }
                        break;
                    } else {
                        self.handle_expected_actually_error(
                            vec![
                                TokenBase::Reserved(ReservedWord::Comma),
                                TokenBase::Reserved(ReservedWord::RightCurly),
                            ],
                        );
                        return Err(ParseError::new("unexpected eof or token"));
                    }
                },
                _ => {
                    self.handle_expected_actually_error(vec![TokenBase::default_identifier()]);
                    return Err(ParseError::new("unexpected token"));
                },
            }
        }
        self.consume_or_skip(ReservedWord::From);
        match self.tokens.look_ahead(1) {
            Some(TokenBase::String(_)) => {
                let ghost before = asts@;
                let source = Ast::new_leaf(self.tokens.next_token().unwrap());
                asts.push(source);
                proof {
                    lemma_models_push(before, source);
                    if acc {
                        assert(g_names(toks, start + 2) is Some);
                        assert(models_of(asts@) =~= list_of(total) + seq![model(source)]);
                    }
                }
                Ok(Ast::new_node_with_leaves(NonTerminal::NamedImportDeclaration, asts))
            },
            _ => {
                self.handle_expected_actually_error(vec![TokenBase::default_string()]);
                Err(ParseError::new("unexpected token or eof"))
            },
        }
    }

    // DefaultImportDeclaration = "import" , Identifier , "from" , String ;
    #[verifier::rlimit(50)]
    pub fn parse_default_import_declaration(&mut self) -> (r: Result<Ast, ParseError>)
        requires
            old(self).tokens.wf(),
        ensures
            advanced(old(self), final(self)),
            r is Err ==> old(self).errs().len() < final(self).errs().len(),
            r matches Ok(a) ==> a.is_node(NonTerminal::DefaultImportDeclaration) && a.kids().len() == 2
                && is_ident_leaf(a.kids()[0]) && is_string_leaf(a.kids()[1]),
            clean(old(self), final(self), r, g_default_import(old(self).tokens.toks(), old(self).tokens.pos())),
    {
        self.tokens.next();
        let mut asts: Vec<Ast> = Vec::new();
        match self.tokens.look_ahead(1) {
            Some(TokenBase::Identifier(_)) => {
                asts.push(Ast::new_leaf(self.tokens.next_token().unwrap()));
            },
            _ => {
                self.handle_expected_actually_error(vec![TokenBase::default_identifier()]);
                return Err(ParseError::new("unexpected token or eof"));
            },
        }
        self.consume_or_skip(ReservedWord::From);
        match self.tokens.look_ahead(1) {
            Some(TokenBase::String(_)) => {
                let source = Ast::new_leaf(self.tokens.next_token().unwrap());
                let ghost name = asts@[0];
                asts.push(source);
                proof {
                    assert(asts@ =~= seq![name, source]);
                    lemma_models_two(name, source);
                }
                let r = Ast::new_node_with_leaves(NonTerminal::DefaultImportDeclaration, asts);
                Ok(r)
            },
            _ => {
                self.handle_expected_actually_error(vec![TokenBase::default_string()]);
                Err(ParseError::new("unexpected token or eof"))
            },
        }
    }

    // ImportDeclaration = ( NamedImportDeclaration | DefaultImportDeclaration ) , ";" ;
    #[verifier::rlimit(50)]
    pub fn parse_import_declaration(&mut self) -> (r: Result<Ast, ParseError>)
        requires
            old(self).tokens.wf(),
        ensures
            advanced(old(self), final(self)),
            r is Err ==> old(self).errs().len() < final(self).errs().len(),
            r matches Ok(a) ==> a.is_node(NonTerminal::ImportDeclaration) && a.kids().len() == 1,
            clean(old(self), final(self), r, g_import(old(self).tokens.toks(), old(self).tokens.pos())),
    {
        let second = self.tokens.look_ahead(2);
        let result = if is_reserved(&second, ReservedWord::LeftCurly) {
            match self.parse_named_import_declaration() {
                Ok(named) => {
                    let children = vec![named];
                    proof {
                        assert(children@ =~= seq![named]);
                        lemma_models_one(named);
                    }
                    Ok(Ast::new_node_with_leaves(NonTerminal::ImportDeclaration, children))
                },
                Err(e) => Err(e),
            }
        } else if let Some(TokenBase::Identifier(_)) = second {
            match self.parse_default_import_declaration() {
                Ok(default) => {
                    let children = vec![default];
                    proof {
                        assert(children@ =~= seq![default]);
                        lemma_models_one(default);
                    }
                    Ok(Ast::new_node_with_leaves(NonTerminal::ImportDeclaration, children))
                },
                Err(e) => Err(e),
            }
        } else {
            self.tokens.next();
            self.handle_expected_actually_error(
                vec![TokenBase::Reserved(ReservedWord::LeftCurly), TokenBase::default_identifier()],
            );
            Err(ParseError::new("unexpected token"))
        };
        self.consume_or_skip(ReservedWord::SemiColon);
        result
    }
}

} // verus!
