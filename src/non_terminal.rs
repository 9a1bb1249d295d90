use vstd::prelude::*;

verus! {

/// A grammar production, the label of an inner node of the syntax tree.
#[derive(Clone, Copy, Debug, PartialEq, Eq, Structural)]
pub enum NonTerminal {
    TranslationUnit,
    Attribute,
    ExportableConstDeclaration,
    ConstDeclaration,
    LetDeclaration,
    DeclarationBody,
    Expression,
    CallExpression,
    FunctionExpression,
    CompoundExpression,
    Args,
    ExpressionStatement,
    NamedImportDeclaration,
    DefaultImportDeclaration,
    ImportDeclaration,
    PrimaryExpression,
    ParenthesizedExpression,
    UnaryExpression,
    ExponentiationExpression,
    MultiplicativeExpression,
    AdditiveExpression,
    ShiftExpression,
    RelationalExpression,
    EqualityExpression,
    BitwiseAndExpression,
    BitwiseXorExpression,
    BitwiseOrExpression,
    LogicalAndExpression,
    LogicalOrExpression,
}

impl NonTerminal {
    /// The name of the production.
    pub open spec fn name(self) -> Seq<char> {
        match self {
            NonTerminal::TranslationUnit => "TranslationUnit"@,
            NonTerminal::Attribute => "Attribute"@,
            NonTerminal::ExportableConstDeclaration => "ExportableConstDeclaration"@,
            NonTerminal::ConstDeclaration => "ConstDeclaration"@,
            NonTerminal::LetDeclaration => "LetDeclaration"@,
            NonTerminal::DeclarationBody => "DeclarationBody"@,
            NonTerminal::Expression => "Expression"@,
            NonTerminal::CallExpression => "CallExpression"@,
            NonTerminal::FunctionExpression => "FunctionExpression"@,
            NonTerminal::CompoundExpression => "CompoundExpression"@,
            NonTerminal::Args => "Args"@,
            NonTerminal::ExpressionStatement => "ExpressionStatement"@,
            NonTerminal::NamedImportDeclaration => "NamedImportDeclaration"@,
            NonTerminal::DefaultImportDeclaration => "DefaultImportDeclaration"@,
            NonTerminal::ImportDeclaration => "ImportDeclaration"@,
            NonTerminal::PrimaryExpression => "PrimaryExpression"@,
            NonTerminal::ParenthesizedExpression => "ParenthesizedExpression"@,
            NonTerminal::UnaryExpression => "UnaryExpression"@,
            NonTerminal::ExponentiationExpression => "ExponentiationExpression"@,
            NonTerminal::MultiplicativeExpression => "MultiplicativeExpression"@,
            NonTerminal::AdditiveExpression => "AdditiveExpression"@,
            NonTerminal::ShiftExpression => "ShiftExpression"@,
            NonTerminal::RelationalExpression => "RelationalExpression"@,
            NonTerminal::EqualityExpression => "EqualityExpression"@,
            NonTerminal::BitwiseAndExpression => "BitwiseAndExpression"@,
            NonTerminal::BitwiseXorExpression => "BitwiseXorExpression"@,
            NonTerminal::BitwiseOrExpression => "BitwiseOrExpression"@,
            NonTerminal::LogicalAndExpression => "LogicalAndExpression"@,
            NonTerminal::LogicalOrExpression => "LogicalOrExpression"@,
        }
    }

    /// The name of the production, as printed in a tree dump.
    pub fn as_str(&self) -> (r: &'static str)
        ensures
            r@ == self.name(),
    {
        match self {
            NonTerminal::TranslationUnit => "TranslationUnit",
            NonTerminal::Attribute => "Attribute",
            NonTerminal::ExportableConstDeclaration => "ExportableConstDeclaration",
            NonTerminal::ConstDeclaration => "ConstDeclaration",
            NonTerminal::LetDeclaration => "LetDeclaration",
            NonTerminal::DeclarationBody => "DeclarationBody",
            NonTerminal::Expression => "Expression",
            NonTerminal::CallExpression => "CallExpression",
            NonTerminal::FunctionExpression => "FunctionExpression",
            NonTerminal::CompoundExpression => "CompoundExpression",
            NonTerminal::Args => "Args",
            NonTerminal::ExpressionStatement => "ExpressionStatement",
            NonTerminal::NamedImportDeclaration => "NamedImportDeclaration",
            NonTerminal::DefaultImportDeclaration => "DefaultImportDeclaration",
            NonTerminal::ImportDeclaration => "ImportDeclaration",
            NonTerminal::PrimaryExpression => "PrimaryExpression",
            NonTerminal::ParenthesizedExpression => "ParenthesizedExpression",
            NonTerminal::UnaryExpression => "UnaryExpression",
            NonTerminal::ExponentiationExpression => "ExponentiationExpression",
            NonTerminal::MultiplicativeExpression => "MultiplicativeExpression",
            NonTerminal::AdditiveExpression => "AdditiveExpression",
            NonTerminal::ShiftExpression => "ShiftExpression",
            NonTerminal::RelationalExpression => "RelationalExpression",
            NonTerminal::EqualityExpression => "EqualityExpression",
            NonTerminal::BitwiseAndExpression => "BitwiseAndExpression",
            NonTerminal::BitwiseXorExpression => "BitwiseXorExpression",
            NonTerminal::BitwiseOrExpression => "BitwiseOrExpression",
            NonTerminal::LogicalAndExpression => "LogicalAndExpression",
            NonTerminal::LogicalOrExpression => "LogicalOrExpression",
        }
    }
}

} // verus!
