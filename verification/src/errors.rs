//! Errors reported by the compiler passes.
use vstd::prelude::*;
use crate::text::{chars_of, push_all, string_from_chars};

verus! {

/// A compile error; `to_string` renders the message the passes report.
#[derive(Clone, Debug, PartialEq, Eq)]
pub enum ScriptLangError {
    /// A quoted string in an expression has no closing quote.
    UnterminatedStringLiteral,
    /// `@` not followed by an identifier.
    InvalidScriptLiteral,
    /// A single-quoted expression string ends right after a backslash.
    UnterminatedSingleQuotedEscape,
    /// A single-quoted expression string has no closing quote.
    UnterminatedSingleQuotedString,
    /// A call's argument list has no closing parenthesis.
    UnterminatedFunctionCall,
    /// A const is referenced before its definition.
    ConstUsedBeforeDefinition(String),
    /// A const expression is empty.
    EmptyConstExpression,
    /// A const expression starts with a character no literal starts with.
    UnsupportedConstStart(char),
    /// An object key starts with a character no key starts with.
    UnsupportedObjectKey(char),
    /// An object literal ends before its closing brace.
    UnexpectedEndOfObject,
    /// A `-` that no digit follows.
    InvalidNumber,
    /// A number with a fractional part.
    FloatNotSupported,
    /// An integer literal outside the `i64` range.
    InvalidInteger(String),
    /// A name that is not a visible const.
    UnsupportedConstReference(String),
    /// An identifier was expected where this character stands.
    ExpectedIdentifier(char),
    /// The input ended where an identifier was expected.
    UnexpectedEndOfInput,
    /// The input ended where a string literal was expected.
    UnexpectedEndOfString,
    /// A string literal ends right after a backslash.
    UnterminatedEscape,
    /// This punctuation was expected.
    ExpectedChar(char),
    /// Text remains after a complete const expression.
    TrailingTokens(String),
    /// `module` has no exported const `name`: (module, name).
    ModuleDoesNotExportConst(String, String),
    /// `module` is not imported into `current`: (module, current).
    ModuleNotImported(String, String),
    /// A const does not evaluate to the kind of value its declared type names.
    DeclaredTypeMismatch(DeclaredType),
    /// A problem with a form, and where the form stands.
    At(FormIssue, String),
    /// A script literal that names no declared script.
    UnknownScript(String),
    /// A function literal that names no declared function.
    UnknownFunction(String),
    /// A script literal that cannot be qualified.
    InvalidScriptLiteralText(String),
    /// A function literal that cannot be qualified.
    InvalidFunctionLiteral(String),
    /// A module that is not in the program.
    ModuleDoesNotExist(String),
    /// `module` has no exported var `name`: (module, name).
    ModuleDoesNotExportVar(String, String),
    /// `module` has no exported function `name`: (module, name).
    ModuleDoesNotExportFunction(String, String),
    /// `<break>` outside a loop.
    BreakOutsideLoop,
    /// `<continue>` outside a loop.
    ContinueOutsideLoop,
    /// A module in the program's order without state.
    MissingModuleState(String),
    /// A module's state lacks its name.
    MissingModuleName,
    /// Two functions with one qualified name.
    DuplicateFunction(String),
    /// Two scripts with one qualified name.
    DuplicateScript(String),
    /// (short name, qualified name held, qualified name declared): two
    /// globals with one short name.
    AmbiguousGlobalShortName(String, String, String),
    /// The program declares no script.
    NoScripts,
    /// The script a run starts with is not declared.
    DefaultEntryMissing(String),
    /// (name, in an expression slot): a slot names no macro local.
    UnknownMacroLocal(String, bool),
    /// (name, in an expression slot): a macro local of a kind the slot cannot hold.
    NotSpliceable(String, bool),
    /// A user module takes the name reserved for the session entry module.
    ReservedSessionModule(String),
    /// A module form without a `name` field.
    ModuleNameMissing,
    /// A module form whose `name` is not text.
    ModuleNameNotString,
}

/// What is wrong with a form.
#[derive(Clone, Debug, PartialEq, Eq)]
pub enum FormIssue {
    /// (head, attribute) of a form that lacks a required attribute.
    MissingAttr(String, String),
    /// A form whose body is not an expression.
    NotExprBody(String),
    /// A form whose body is not a template.
    NotTemplateBody(String),
    /// A form whose body cannot hold statements.
    NoNestedStatements(String),
    /// A statement body with non-blank text.
    TextItemsUnsupported(String),
    /// (nested head, head): a form inside a text body.
    NestedFormInBody(String, String),
    /// A `children` field that is not a sequence.
    InvalidChildrenShape(String),
    /// A form without a `children` field.
    MissingChildren(String),
    /// `<const>` inside a script.
    ConstNotModuleChild,
    /// `<import>` inside a script.
    ImportNotModuleChild,
    /// `<break>` with children.
    BreakWithChildren,
    /// `<continue>` with children.
    ContinueWithChildren,
    /// A child of `<choice>` that is not `<option>`.
    ChoiceNonOption(String),
    /// A statement head no rule knows.
    UnsupportedStatement(String),
    /// (value, attribute): a boolean attribute with another value.
    InvalidBoolAttr(String, String),
    /// A declared type no rule knows.
    UnsupportedType(String),
    /// A macro parameter the invocation does not give.
    MissingParam(String),
    /// An `ast` parameter given as an attribute.
    AstParamSeparate(String),
    /// (parameter, value): a bool parameter with another value.
    ExpectedBool(String, String),
    /// (parameter, value): an int parameter that is no `i64`.
    ExpectedInt(String, String),
    /// A keyword parameter given as an attribute.
    KeywordParamSeparate(String),
    /// A module that imports itself.
    ImportsItself(String),
    /// An import of a module the program lacks.
    ImportedModuleMissing(String),
    /// An alias whose `as` is empty.
    AliasAsEmpty,
    /// An alias whose `name` has no last segment.
    AliasInvalidName,
    /// A module child no rule knows.
    UnsupportedModuleChild(String),
    /// A function argument that is not `type:name`.
    InvalidFunctionArg(String),
    /// A function argument name given twice.
    DuplicateFunctionArg(String),
    /// An `<unquote>` without a name.
    UnquoteNeedsName,
    /// An `<unquote>` of a name that is no macro local.
    UnknownUnquoteLocal(String),
    /// An `<unquote>` in an expression of a value that is not a scalar.
    UnquoteNotScalar,
    /// A form other than `<unquote>` inside a quoted expression.
    ExprQuoteSlot,
    /// A top-level form that is not `<module>`.
    TopLevelUnsupported(String),
    /// A `<macro>` without a `children` field.
    MacroNeedsChildren,
    /// (module, name): a macro declared twice in one module.
    DuplicateMacro(String, String),
}

/// The mathematical value of a form issue.
pub enum FormIssueView {
    MissingAttr(Seq<char>, Seq<char>),
    NotExprBody(Seq<char>),
    NotTemplateBody(Seq<char>),
    NoNestedStatements(Seq<char>),
    TextItemsUnsupported(Seq<char>),
    NestedFormInBody(Seq<char>, Seq<char>),
    InvalidChildrenShape(Seq<char>),
    MissingChildren(Seq<char>),
    ConstNotModuleChild,
    ImportNotModuleChild,
    BreakWithChildren,
    ContinueWithChildren,
    ChoiceNonOption(Seq<char>),
    UnsupportedStatement(Seq<char>),
    InvalidBoolAttr(Seq<char>, Seq<char>),
    UnsupportedType(Seq<char>),
    MissingParam(Seq<char>),
    AstParamSeparate(Seq<char>),
    ExpectedBool(Seq<char>, Seq<char>),
    ExpectedInt(Seq<char>, Seq<char>),
    KeywordParamSeparate(Seq<char>),
    ImportsItself(Seq<char>),
    ImportedModuleMissing(Seq<char>),
    AliasAsEmpty,
    AliasInvalidName,
    UnsupportedModuleChild(Seq<char>),
    InvalidFunctionArg(Seq<char>),
    DuplicateFunctionArg(Seq<char>),
    UnquoteNeedsName,
    UnknownUnquoteLocal(Seq<char>),
    UnquoteNotScalar,
    ExprQuoteSlot,
    TopLevelUnsupported(Seq<char>),
    MacroNeedsChildren,
    DuplicateMacro(Seq<char>, Seq<char>),
}

impl View for FormIssue {
    type V = FormIssueView;

    open spec fn view(&self) -> FormIssueView {
        match self {
            FormIssue::MissingAttr(h, n) => FormIssueView::MissingAttr(h@, n@),
            FormIssue::NotExprBody(h) => FormIssueView::NotExprBody(h@),
            FormIssue::NotTemplateBody(h) => FormIssueView::NotTemplateBody(h@),
            FormIssue::NoNestedStatements(h) => FormIssueView::NoNestedStatements(h@),
            FormIssue::TextItemsUnsupported(h) => FormIssueView::TextItemsUnsupported(h@),
            FormIssue::NestedFormInBody(n, h) => FormIssueView::NestedFormInBody(n@, h@),
            FormIssue::InvalidChildrenShape(h) => FormIssueView::InvalidChildrenShape(h@),
            FormIssue::MissingChildren(h) => FormIssueView::MissingChildren(h@),
            FormIssue::ConstNotModuleChild => FormIssueView::ConstNotModuleChild,
            FormIssue::ImportNotModuleChild => FormIssueView::ImportNotModuleChild,
            FormIssue::BreakWithChildren => FormIssueView::BreakWithChildren,
            FormIssue::ContinueWithChildren => FormIssueView::ContinueWithChildren,
            FormIssue::ChoiceNonOption(h) => FormIssueView::ChoiceNonOption(h@),
            FormIssue::UnsupportedStatement(h) => FormIssueView::UnsupportedStatement(h@),
            FormIssue::InvalidBoolAttr(v, a) => FormIssueView::InvalidBoolAttr(v@, a@),
            FormIssue::UnsupportedType(t) => FormIssueView::UnsupportedType(t@),
            FormIssue::MissingParam(n) => FormIssueView::MissingParam(n@),
            FormIssue::AstParamSeparate(n) => FormIssueView::AstParamSeparate(n@),
            FormIssue::ExpectedBool(n, v) => FormIssueView::ExpectedBool(n@, v@),
            FormIssue::ExpectedInt(n, v) => FormIssueView::ExpectedInt(n@, v@),
            FormIssue::KeywordParamSeparate(n) => FormIssueView::KeywordParamSeparate(n@),
            FormIssue::ImportsItself(m) => FormIssueView::ImportsItself(m@),
            FormIssue::ImportedModuleMissing(m) => FormIssueView::ImportedModuleMissing(m@),
            FormIssue::AliasAsEmpty => FormIssueView::AliasAsEmpty,
            FormIssue::AliasInvalidName => FormIssueView::AliasInvalidName,
            FormIssue::UnsupportedModuleChild(h) => FormIssueView::UnsupportedModuleChild(h@),
            FormIssue::InvalidFunctionArg(r) => FormIssueView::InvalidFunctionArg(r@),
            FormIssue::DuplicateFunctionArg(n) => FormIssueView::DuplicateFunctionArg(n@),
            FormIssue::UnquoteNeedsName => FormIssueView::UnquoteNeedsName,
            FormIssue::UnknownUnquoteLocal(n) => FormIssueView::UnknownUnquoteLocal(n@),
            FormIssue::UnquoteNotScalar => FormIssueView::UnquoteNotScalar,
            FormIssue::ExprQuoteSlot => FormIssueView::ExprQuoteSlot,
            FormIssue::TopLevelUnsupported(h) => FormIssueView::TopLevelUnsupported(h@),
            FormIssue::MacroNeedsChildren => FormIssueView::MacroNeedsChildren,
            FormIssue::DuplicateMacro(m, n) => FormIssueView::DuplicateMacro(m@, n@),
        }
    }
}

impl FormIssue {
    /// The text of the issue.
    pub open spec fn spec_message(&self) -> Seq<char> {
        match self {
            FormIssue::MissingAttr(h, n) => "<"@ + h@ + "> requires `"@ + n@ + "`"@,
            FormIssue::NotExprBody(h) => "<"@ + h@ + "> body is not classified as an expression"@,
            FormIssue::NotTemplateBody(h) => "<"@ + h@ + "> body is not classified as a template"@,
            FormIssue::NoNestedStatements(h) => "<"@ + h@ + "> body does not support nested statements"@,
            FormIssue::TextItemsUnsupported(h) => "<"@ + h@ + "> does not support text items in MVP"@,
            FormIssue::NestedFormInBody(n, h) => "nested <"@ + n@ + "> is not supported inside <"@ + h@
                + "> in MVP"@,
            FormIssue::InvalidChildrenShape(h) => "<"@ + h@ + "> has invalid `children` field shape"@,
            FormIssue::MissingChildren(h) => "<"@ + h@ + "> is missing `children` field"@,
            FormIssue::ConstNotModuleChild => "<const> is only supported as a direct <module> child in MVP"@,
            FormIssue::ImportNotModuleChild => "<import> is only supported as a direct <module> child in MVP"@,
            FormIssue::BreakWithChildren => "<break> does not support nested statements"@,
            FormIssue::ContinueWithChildren => "<continue> does not support nested statements"@,
            FormIssue::ChoiceNonOption(h) => "<choice> only supports <option> children in MVP, got <"@ + h@
                + ">"@,
            FormIssue::UnsupportedStatement(h) => "unsupported statement <"@ + h@ + "> in MVP"@,
            FormIssue::InvalidBoolAttr(v, a) => "invalid boolean value `"@ + v@ + "` for `"@ + a@ + "`"@,
            FormIssue::UnsupportedType(t) => "unsupported type `"@ + t@ + "` in MVP"@,
            FormIssue::MissingParam(n) => "missing required parameter `"@ + n@ + "`"@,
            FormIssue::AstParamSeparate(n) => "internal error: AST parameter `"@ + n@
                + "` should be handled separately"@,
            FormIssue::ExpectedBool(n, v) => "parameter `"@ + n@ + "` expected bool, got `"@ + v@ + "`"@,
            FormIssue::ExpectedInt(n, v) => "parameter `"@ + n@ + "` expected int, got `"@ + v@ + "`"@,
            FormIssue::KeywordParamSeparate(n) => "internal error: keyword parameter `"@ + n@
                + "` should be handled separately"@,
            FormIssue::ImportsItself(m) => "module `"@ + m@ + "` cannot import itself"@,
            FormIssue::ImportedModuleMissing(m) => "imported module `"@ + m@ + "` does not exist"@,
            FormIssue::AliasAsEmpty => "<alias> `as` cannot be empty"@,
            FormIssue::AliasInvalidName => "<alias> requires valid `name`"@,
            FormIssue::UnsupportedModuleChild(h) => "unsupported <module> child <"@ + h@ + "> in MVP"@,
            FormIssue::InvalidFunctionArg(r) => "invalid function arg declaration `"@ + r@ + "`"@,
            FormIssue::DuplicateFunctionArg(n) => "duplicate function arg `"@ + n@ + "`"@,
            FormIssue::UnquoteNeedsName => "<unquote> requires local name body"@,
            FormIssue::UnknownUnquoteLocal(n) => "unknown macro local `"@ + n@ + "` referenced by <unquote>"@,
            FormIssue::UnquoteNotScalar => "<unquote> in expr position requires scalar compile-time value"@,
            FormIssue::ExprQuoteSlot => "expr quote slot only supports text and <unquote>"@,
            FormIssue::TopLevelUnsupported(h) => "top-level <"@ + h@ + "> is not supported in MVP"@,
            FormIssue::MacroNeedsChildren => "<macro> requires `children` field"@,
            FormIssue::DuplicateMacro(m, n) => "duplicate macro declaration `"@ + m@ + "."@ + n@ + "`"@,
        }
    }

    /// Appends the text of the issue to `out`.
    pub fn push_message(&self, out: &mut Vec<char>)
        ensures
            final(out)@ == old(out)@ + self.spec_message(),
    {
        let ghost start = out@;
        match self {
            FormIssue::MissingAttr(h, n) => {
                push_all(out, &chars_of("<"));
                push_all(out, &chars_of(h.as_str()));
                push_all(out, &chars_of("> requires `"));
                push_all(out, &chars_of(n.as_str()));
                push_all(out, &chars_of("`"));
            },
            FormIssue::NotExprBody(h) => {
                push_all(out, &chars_of("<"));
                push_all(out, &chars_of(h.as_str()));
                push_all(out, &chars_of("> body is not classified as an expression"));
            },
            FormIssue::NotTemplateBody(h) => {
                push_all(out, &chars_of("<"));
                push_all(out, &chars_of(h.as_str()));
                push_all(out, &chars_of("> body is not classified as a template"));
            },
            FormIssue::NoNestedStatements(h) => {
                push_all(out, &chars_of("<"));
                push_all(out, &chars_of(h.as_str()));
                push_all(out, &chars_of("> body does not support nested statements"));
            },
            FormIssue::TextItemsUnsupported(h) => {
                push_all(out, &chars_of("<"));
                push_all(out, &chars_of(h.as_str()));
                push_all(out, &chars_of("> does not support text items in MVP"));
            },
            FormIssue::NestedFormInBody(n, h) => {
                push_all(out, &chars_of("nested <"));
                push_all(out, &chars_of(n.as_str()));
                push_all(out, &chars_of("> is not supported inside <"));
                push_all(out, &chars_of(h.as_str()));
                push_all(out, &chars_of("> in MVP"));
            },
            FormIssue::InvalidChildrenShape(h) => {
                push_all(out, &chars_of("<"));
                push_all(out, &chars_of(h.as_str()));
                push_all(out, &chars_of("> has invalid `children` field shape"));
            },
            FormIssue::MissingChildren(h) => {
                push_all(out, &chars_of("<"));
                push_all(out, &chars_of(h.as_str()));
                push_all(out, &chars_of("> is missing `children` field"));
            },
            FormIssue::ConstNotModuleChild => {
                push_all(out, &chars_of("<const> is only supported as a direct <module> child in MVP"));
            },
            FormIssue::ImportNotModuleChild => {
                push_all(out, &chars_of("<import> is only supported as a direct <module> child in MVP"));
            },
            FormIssue::BreakWithChildren => {
                push_all(out, &chars_of("<break> does not support nested statements"));
            },
            FormIssue::ContinueWithChildren => {
                push_all(out, &chars_of("<continue> does not support nested statements"));
            },
            FormIssue::ChoiceNonOption(h) => {
                push_all(out, &chars_of("<choice> only supports <option> children in MVP, got <"));
                push_all(out, &chars_of(h.as_str()));
                push_all(out, &chars_of(">"));
            },
            FormIssue::UnsupportedStatement(h) => {
                push_all(out, &chars_of("unsupported statement <"));
                push_all(out, &chars_of(h.as_str()));
                push_all(out, &chars_of("> in MVP"));
            },
            FormIssue::InvalidBoolAttr(v, a) => {
                push_all(out, &chars_of("invalid boolean value `"));
                push_all(out, &chars_of(v.as_str()));
                push_all(out, &chars_of("` for `"));
                push_all(out, &chars_of(a.as_str()));
                push_all(out, &chars_of("`"));
            },
            FormIssue::UnsupportedType(t) => {
                push_all(out, &chars_of("unsupported type `"));
                push_all(out, &chars_of(t.as_str()));
                push_all(out, &chars_of("` in MVP"));
            },
            FormIssue::MissingParam(n) => {
                push_all(out, &chars_of("missing required parameter `"));
                push_all(out, &chars_of(n.as_str()));
                push_all(out, &chars_of("`"));
            },
            FormIssue::AstParamSeparate(n) => {
                push_all(out, &chars_of("internal error: AST parameter `"));
                push_all(out, &chars_of(n.as_str()));
                push_all(out, &chars_of("` should be handled separately"));
            },
            FormIssue::ExpectedBool(n, v) => {
                push_all(out, &chars_of("parameter `"));
                push_all(out, &chars_of(n.as_str()));
                push_all(out, &chars_of("` expected bool, got `"));
                push_all(out, &chars_of(v.as_str()));
                push_all(out, &chars_of("`"));
            },
            FormIssue::ExpectedInt(n, v) => {
                push_all(out, &chars_of("parameter `"));
                push_all(out, &chars_of(n.as_str()));
                push_all(out, &chars_of("` expected int, got `"));
                push_all(out, &chars_of(v.as_str()));
                push_all(out, &chars_of("`"));
            },
            FormIssue::KeywordParamSeparate(n) => {
                push_all(out, &chars_of("internal error: keyword parameter `"));
                push_all(out, &chars_of(n.as_str()));
                push_all(out, &chars_of("` should be handled separately"));
            },
            FormIssue::ImportsItself(m) => {
                push_all(out, &chars_of("module `"));
                push_all(out, &chars_of(m.as_str()));
                push_all(out, &chars_of("` cannot import itself"));
            },
            FormIssue::ImportedModuleMissing(m) => {
                push_all(out, &chars_of("imported module `"));
                push_all(out, &chars_of(m.as_str()));
                push_all(out, &chars_of("` does not exist"));
            },
            FormIssue::AliasAsEmpty => {
                push_all(out, &chars_of("<alias> `as` cannot be empty"));
            },
            FormIssue::AliasInvalidName => {
                push_all(out, &chars_of("<alias> requires valid `name`"));
            },
            FormIssue::UnsupportedModuleChild(h) => {
                push_all(out, &chars_of("unsupported <module> child <"));
                push_all(out, &chars_of(h.as_str()));
                push_all(out, &chars_of("> in MVP"));
            },
            FormIssue::InvalidFunctionArg(r) => {
                push_all(out, &chars_of("invalid function arg declaration `"));
                push_all(out, &chars_of(r.as_str()));
                push_all(out, &chars_of("`"));
            },
            FormIssue::DuplicateFunctionArg(n) => {
                push_all(out, &chars_of("duplicate function arg `"));
                push_all(out, &chars_of(n.as_str()));
                push_all(out, &chars_of("`"));
            },
            FormIssue::UnquoteNeedsName => {
                push_all(out, &chars_of("<unquote> requires local name body"));
            },
            FormIssue::UnknownUnquoteLocal(n) => {
                push_all(out, &chars_of("unknown macro local `"));
                push_all(out, &chars_of(n.as_str()));
                push_all(out, &chars_of("` referenced by <unquote>"));
            },
            FormIssue::UnquoteNotScalar => {
                push_all(out, &chars_of("<unquote> in expr position requires scalar compile-time value"));
            },
            FormIssue::ExprQuoteSlot => {
                push_all(out, &chars_of("expr quote slot only supports text and <unquote>"));
            },
            FormIssue::TopLevelUnsupported(h) => {
                push_all(out, &chars_of("top-level <"));
                push_all(out, &chars_of(h.as_str()));
                push_all(out, &chars_of("> is not supported in MVP"));
            },
            FormIssue::MacroNeedsChildren => {
                push_all(out, &chars_of("<macro> requires `children` field"));
            },
            FormIssue::DuplicateMacro(m, n) => {
                push_all(out, &chars_of("duplicate macro declaration `"));
                push_all(out, &chars_of(m.as_str()));
                push_all(out, &chars_of("."));
                push_all(out, &chars_of(n.as_str()));
                push_all(out, &chars_of("`"));
            },
        }
        assert(out@ =~= start + self.spec_message());
    }
}

/// The value kinds a const or var may be declared with.
#[derive(Clone, Copy, Debug, PartialEq, Eq)]
pub enum DeclaredType {
    Array,
    Bool,
    Function,
    Int,
    Object,
    Script,
    String,
}

/// The mathematical value of an error: its kind and its texts.
pub enum ErrorView {
    UnterminatedStringLiteral,
    InvalidScriptLiteral,
    UnterminatedSingleQuotedEscape,
    UnterminatedSingleQuotedString,
    UnterminatedFunctionCall,
    ConstUsedBeforeDefinition(Seq<char>),
    EmptyConstExpression,
    UnsupportedConstStart(char),
    UnsupportedObjectKey(char),
    UnexpectedEndOfObject,
    InvalidNumber,
    FloatNotSupported,
    InvalidInteger(Seq<char>),
    UnsupportedConstReference(Seq<char>),
    ExpectedIdentifier(char),
    UnexpectedEndOfInput,
    UnexpectedEndOfString,
    UnterminatedEscape,
    ExpectedChar(char),
    TrailingTokens(Seq<char>),
    ModuleDoesNotExportConst(Seq<char>, Seq<char>),
    ModuleNotImported(Seq<char>, Seq<char>),
    DeclaredTypeMismatch(DeclaredType),
    At(FormIssueView, Seq<char>),
    UnknownScript(Seq<char>),
    UnknownFunction(Seq<char>),
    InvalidScriptLiteralText(Seq<char>),
    InvalidFunctionLiteral(Seq<char>),
    ModuleDoesNotExist(Seq<char>),
    ModuleDoesNotExportVar(Seq<char>, Seq<char>),
    ModuleDoesNotExportFunction(Seq<char>, Seq<char>),
    BreakOutsideLoop,
    ContinueOutsideLoop,
    MissingModuleState(Seq<char>),
    MissingModuleName,
    DuplicateFunction(Seq<char>),
    DuplicateScript(Seq<char>),
    AmbiguousGlobalShortName(Seq<char>, Seq<char>, Seq<char>),
    NoScripts,
    DefaultEntryMissing(Seq<char>),
    UnknownMacroLocal(Seq<char>, bool),
    NotSpliceable(Seq<char>, bool),
    ReservedSessionModule(Seq<char>),
    ModuleNameMissing,
    ModuleNameNotString,
}

impl View for ScriptLangError {
    type V = ErrorView;

    open spec fn view(&self) -> ErrorView {
        match self {
            ScriptLangError::UnterminatedStringLiteral => ErrorView::UnterminatedStringLiteral,
            ScriptLangError::InvalidScriptLiteral => ErrorView::InvalidScriptLiteral,
            ScriptLangError::UnterminatedSingleQuotedEscape => ErrorView::UnterminatedSingleQuotedEscape,
            ScriptLangError::UnterminatedSingleQuotedString => ErrorView::UnterminatedSingleQuotedString,
            ScriptLangError::UnterminatedFunctionCall => ErrorView::UnterminatedFunctionCall,
            ScriptLangError::ConstUsedBeforeDefinition(n) => ErrorView::ConstUsedBeforeDefinition(n@),
            ScriptLangError::EmptyConstExpression => ErrorView::EmptyConstExpression,
            ScriptLangError::UnsupportedConstStart(c) => ErrorView::UnsupportedConstStart(*c),
            ScriptLangError::UnsupportedObjectKey(c) => ErrorView::UnsupportedObjectKey(*c),
            ScriptLangError::UnexpectedEndOfObject => ErrorView::UnexpectedEndOfObject,
            ScriptLangError::InvalidNumber => ErrorView::InvalidNumber,
            ScriptLangError::FloatNotSupported => ErrorView::FloatNotSupported,
            ScriptLangError::InvalidInteger(r) => ErrorView::InvalidInteger(r@),
            ScriptLangError::UnsupportedConstReference(n) => ErrorView::UnsupportedConstReference(n@),
            ScriptLangError::ExpectedIdentifier(c) => ErrorView::ExpectedIdentifier(*c),
            ScriptLangError::UnexpectedEndOfInput => ErrorView::UnexpectedEndOfInput,
            ScriptLangError::UnexpectedEndOfString => ErrorView::UnexpectedEndOfString,
            ScriptLangError::UnterminatedEscape => ErrorView::UnterminatedEscape,
            ScriptLangError::ExpectedChar(c) => ErrorView::ExpectedChar(*c),
            ScriptLangError::TrailingTokens(t) => ErrorView::TrailingTokens(t@),
            ScriptLangError::ModuleDoesNotExportConst(m, n) => ErrorView::ModuleDoesNotExportConst(m@, n@),
            ScriptLangError::ModuleNotImported(m, c) => ErrorView::ModuleNotImported(m@, c@),
            ScriptLangError::DeclaredTypeMismatch(t) => ErrorView::DeclaredTypeMismatch(*t),
            ScriptLangError::At(i, l) => ErrorView::At(i@, l@),
            ScriptLangError::UnknownScript(q) => ErrorView::UnknownScript(q@),
            ScriptLangError::UnknownFunction(q) => ErrorView::UnknownFunction(q@),
            ScriptLangError::InvalidScriptLiteralText(r) => ErrorView::InvalidScriptLiteralText(r@),
            ScriptLangError::InvalidFunctionLiteral(r) => ErrorView::InvalidFunctionLiteral(r@),
            ScriptLangError::ModuleDoesNotExist(m) => ErrorView::ModuleDoesNotExist(m@),
            ScriptLangError::ModuleDoesNotExportVar(m, n) => ErrorView::ModuleDoesNotExportVar(m@, n@),
            ScriptLangError::ModuleDoesNotExportFunction(m, n) => ErrorView::ModuleDoesNotExportFunction(m@, n@),
            ScriptLangError::BreakOutsideLoop => ErrorView::BreakOutsideLoop,
            ScriptLangError::ContinueOutsideLoop => ErrorView::ContinueOutsideLoop,
            ScriptLangError::MissingModuleState(m) => ErrorView::MissingModuleState(m@),
            ScriptLangError::MissingModuleName => ErrorView::MissingModuleName,
            ScriptLangError::DuplicateFunction(q) => ErrorView::DuplicateFunction(q@),
            ScriptLangError::DuplicateScript(q) => ErrorView::DuplicateScript(q@),
            ScriptLangError::AmbiguousGlobalShortName(n, a, b) => ErrorView::AmbiguousGlobalShortName(n@, a@, b@),
            ScriptLangError::NoScripts => ErrorView::NoScripts,
            ScriptLangError::DefaultEntryMissing(q) => ErrorView::DefaultEntryMissing(q@),
            ScriptLangError::UnknownMacroLocal(k, x) => ErrorView::UnknownMacroLocal(k@, *x),
            ScriptLangError::NotSpliceable(k, x) => ErrorView::NotSpliceable(k@, *x),
            ScriptLangError::ReservedSessionModule(m) => ErrorView::ReservedSessionModule(m@),
            ScriptLangError::ModuleNameMissing => ErrorView::ModuleNameMissing,
            ScriptLangError::ModuleNameNotString => ErrorView::ModuleNameNotString,
        }
    }
}

/// The kind of a splice slot: `expr` or `string`.
pub open spec fn spec_slot_name(expr: bool) -> Seq<char> {
    if expr {
        "expr"@
    } else {
        "string"@
    }
}

/// The name a declared type is written with.
pub open spec fn spec_declared_type_name(t: DeclaredType) -> Seq<char> {
    match t {
        DeclaredType::Array => "array"@,
        DeclaredType::Bool => "bool"@,
        DeclaredType::Function => "function"@,
        DeclaredType::Int => "int"@,
        DeclaredType::Object => "object"@,
        DeclaredType::Script => "script"@,
        DeclaredType::String => "string"@,
    }
}

/// The literal kind a declared type asks for.
pub open spec fn spec_declared_type_literal(t: DeclaredType) -> Seq<char> {
    match t {
        DeclaredType::Array => "an array"@,
        DeclaredType::Bool => "a boolean"@,
        DeclaredType::Function => "a function"@,
        DeclaredType::Int => "an integer"@,
        DeclaredType::Object => "an object"@,
        DeclaredType::Script => "a script"@,
        DeclaredType::String => "a string"@,
    }
}

fn declared_type_words(t: DeclaredType) -> (r: (Vec<char>, Vec<char>))
    ensures
        r.0@ == spec_declared_type_name(t),
        r.1@ == spec_declared_type_literal(t),
{
    match t {
        DeclaredType::Array => (chars_of("array"), chars_of("an array")),
        DeclaredType::Bool => (chars_of("bool"), chars_of("a boolean")),
        DeclaredType::Function => (chars_of("function"), chars_of("a function")),
        DeclaredType::Int => (chars_of("int"), chars_of("an integer")),
        DeclaredType::Object => (chars_of("object"), chars_of("an object")),
        DeclaredType::Script => (chars_of("script"), chars_of("a script")),
        DeclaredType::String => (chars_of("string"), chars_of("a string")),
    }
}


impl ScriptLangError {
    /// The text of the error message.
    pub open spec fn spec_message(&self) -> Seq<char> {
        match self {
            ScriptLangError::UnterminatedStringLiteral => "unterminated string literal"@,
            ScriptLangError::InvalidScriptLiteral => "invalid script literal `@`"@,
            ScriptLangError::UnterminatedSingleQuotedEscape =>
                "unterminated escape in single-quoted expr string"@,
            ScriptLangError::UnterminatedSingleQuotedString =>
                "unterminated single-quoted expr string"@,
            ScriptLangError::UnterminatedFunctionCall => "unterminated function call"@,
            ScriptLangError::ConstUsedBeforeDefinition(name) => "const `"@ + name@
                + "` cannot be referenced before it is defined"@,
            ScriptLangError::EmptyConstExpression => "empty const expression"@,
            ScriptLangError::UnsupportedConstStart(c) => "unsupported const expression starting with `"@
                + seq![*c] + "`"@,
            ScriptLangError::UnsupportedObjectKey(c) => "unsupported object key starting with `"@
                + seq![*c] + "`"@,
            ScriptLangError::UnexpectedEndOfObject => "unexpected end of object literal"@,
            ScriptLangError::InvalidNumber => "invalid const number literal"@,
            ScriptLangError::FloatNotSupported => "float const literals are not supported in MVP"@,
            ScriptLangError::InvalidInteger(raw) => "invalid integer const literal `"@ + raw@
                + "`"@,
            ScriptLangError::UnsupportedConstReference(name) => "unsupported const reference `"@
                + name@ + "`; only visible const values are allowed"@,
            ScriptLangError::ExpectedIdentifier(c) => "expected identifier, got `"@ + seq![*c]
                + "`"@,
            ScriptLangError::UnexpectedEndOfInput => "unexpected end of input"@,
            ScriptLangError::UnexpectedEndOfString => "unexpected end of string literal"@,
            ScriptLangError::UnterminatedEscape => "unterminated escape sequence"@,
            ScriptLangError::ExpectedChar(c) => "expected `"@ + seq![*c] + "` in const expression"@,
            ScriptLangError::TrailingTokens(src) => "unexpected trailing tokens in const expression `"@
                + src@ + "`"@,
            ScriptLangError::ModuleDoesNotExportConst(m, n) => "module `"@ + m@
                + "` does not export const `"@ + n@ + "`"@,
            ScriptLangError::ModuleNotImported(m, c) => "module `"@ + m@ + "` is not imported into `"@
                + c@ + "`"@,
            ScriptLangError::DeclaredTypeMismatch(t) => "const declared as `"@
                + spec_declared_type_name(*t) + "` must evaluate to "@ + spec_declared_type_literal(*t)
                + " literal"@,
            ScriptLangError::At(issue, loc) => issue.spec_message() + " at "@ + loc@,
            ScriptLangError::UnknownScript(q) => "unknown script `"@ + q@ + "`"@,
            ScriptLangError::UnknownFunction(q) => "unknown function `"@ + q@ + "`"@,
            ScriptLangError::InvalidScriptLiteralText(r) => "invalid script literal `"@ + r@ + "`"@,
            ScriptLangError::InvalidFunctionLiteral(r) => "invalid function literal `"@ + r@ + "`"@,
            ScriptLangError::ModuleDoesNotExist(m) => "module `"@ + m@ + "` does not exist"@,
            ScriptLangError::ModuleDoesNotExportVar(m, n) => "module `"@ + m@ + "` does not export var `"@
                + n@ + "`"@,
            ScriptLangError::ModuleDoesNotExportFunction(m, n) => "module `"@ + m@
                + "` does not export function `"@ + n@ + "`"@,
            ScriptLangError::BreakOutsideLoop => "<break> is only allowed inside <while>"@,
            ScriptLangError::ContinueOutsideLoop => "<continue> is only allowed inside <while>"@,
            ScriptLangError::MissingModuleState(m) => "module `"@ + m@ + "` missing expand-time state"@,
            ScriptLangError::MissingModuleName => "missing module name in expand state"@,
            ScriptLangError::DuplicateFunction(q) => "duplicate function declaration `"@ + q@ + "`"@,
            ScriptLangError::DuplicateScript(q) => "duplicate script declaration `"@ + q@ + "`"@,
            ScriptLangError::AmbiguousGlobalShortName(n, a, b) => "global short name `"@ + n@ + "` is ambiguous between `"@
                + a@ + "` and `"@ + b@ + "`"@,
            ScriptLangError::NoScripts => "no <script> declarations found"@,
            ScriptLangError::DefaultEntryMissing(q) => "default entry script `"@ + q@ + "` does not exist"@,
            ScriptLangError::UnknownMacroLocal(k, x) => "unknown macro local `"@ + k@ + "` referenced in "@
                + spec_slot_name(*x) + " slot"@,
            ScriptLangError::NotSpliceable(k, x) => "macro local `"@ + k@ + "` cannot be spliced into "@
                + spec_slot_name(*x) + " slot"@,
            ScriptLangError::ReservedSessionModule(m) => "module name `"@ + m@
                + "` is reserved for api runtime entry"@,
            ScriptLangError::ModuleNameMissing => "expected a <module> form with `name`"@,
            ScriptLangError::ModuleNameNotString => "<module>.name must be a string"@,
        }
    }

    /// Renders the error message.
    pub fn to_string(&self) -> (r: String)
        ensures
            r@ == self.spec_message(),
    {
        let mut out: Vec<char> = Vec::new();
        match self {
            ScriptLangError::UnterminatedStringLiteral => {
                push_all(&mut out, &chars_of("unterminated string literal"));
            },
            ScriptLangError::InvalidScriptLiteral => {
                push_all(&mut out, &chars_of("invalid script literal `@`"));
            },
            ScriptLangError::UnterminatedSingleQuotedEscape => {
                push_all(&mut out, &chars_of("unterminated escape in single-quoted expr string"));
            },
            ScriptLangError::UnterminatedSingleQuotedString => {
                push_all(&mut out, &chars_of("unterminated single-quoted expr string"));
            },
            ScriptLangError::UnterminatedFunctionCall => {
                push_all(&mut out, &chars_of("unterminated function call"));
            },
            ScriptLangError::ConstUsedBeforeDefinition(name) => {
                push_all(&mut out, &chars_of("const `"));
                push_all(&mut out, &chars_of(name.as_str()));
                push_all(&mut out, &chars_of("` cannot be referenced before it is defined"));
            },
            ScriptLangError::EmptyConstExpression => {
                push_all(&mut out, &chars_of("empty const expression"));
            },
            ScriptLangError::UnsupportedConstStart(c) => {
                push_all(&mut out, &chars_of("unsupported const expression starting with `"));
                out.push(*c);
                push_all(&mut out, &chars_of("`"));
            },
            ScriptLangError::UnsupportedObjectKey(c) => {
                push_all(&mut out, &chars_of("unsupported object key starting with `"));
                out.push(*c);
                push_all(&mut out, &chars_of("`"));
            },
            ScriptLangError::UnexpectedEndOfObject => {
                push_all(&mut out, &chars_of("unexpected end of object literal"));
            },
            ScriptLangError::InvalidNumber => {
                push_all(&mut out, &chars_of("invalid const number literal"));
            },
            ScriptLangError::FloatNotSupported => {
                push_all(&mut out, &chars_of("float const literals are not supported in MVP"));
            },
            ScriptLangError::InvalidInteger(raw) => {
                push_all(&mut out, &chars_of("invalid integer const literal `"));
                push_all(&mut out, &chars_of(raw.as_str()));
                push_all(&mut out, &chars_of("`"));
            },
            ScriptLangError::UnsupportedConstReference(name) => {
                push_all(&mut out, &chars_of("unsupported const reference `"));
                push_all(&mut out, &chars_of(name.as_str()));
                push_all(&mut out, &chars_of("`; only visible const values are allowed"));
            },
            ScriptLangError::ExpectedIdentifier(c) => {
                push_all(&mut out, &chars_of("expected identifier, got `"));
                out.push(*c);
                push_all(&mut out, &chars_of("`"));
            },
            ScriptLangError::UnexpectedEndOfInput => {
                push_all(&mut out, &chars_of("unexpected end of input"));
            },
            ScriptLangError::UnexpectedEndOfString => {
                push_all(&mut out, &chars_of("unexpected end of string literal"));
            },
            ScriptLangError::UnterminatedEscape => {
                push_all(&mut out, &chars_of("unterminated escape sequence"));
            },
            ScriptLangError::ExpectedChar(c) => {
                push_all(&mut out, &chars_of("expected `"));
                out.push(*c);
                push_all(&mut out, &chars_of("` in const expression"));
            },
            ScriptLangError::TrailingTokens(src) => {
                push_all(&mut out, &chars_of("unexpected trailing tokens in const expression `"));
                push_all(&mut out, &chars_of(src.as_str()));
                push_all(&mut out, &chars_of("`"));
            },
            ScriptLangError::ModuleDoesNotExportConst(m, n) => {
                push_all(&mut out, &chars_of("module `"));
                push_all(&mut out, &chars_of(m.as_str()));
                push_all(&mut out, &chars_of("` does not export const `"));
                push_all(&mut out, &chars_of(n.as_str()));
                push_all(&mut out, &chars_of("`"));
            },
            ScriptLangError::ModuleNotImported(m, c) => {
                push_all(&mut out, &chars_of("module `"));
                push_all(&mut out, &chars_of(m.as_str()));
                push_all(&mut out, &chars_of("` is not imported into `"));
                push_all(&mut out, &chars_of(c.as_str()));
                push_all(&mut out, &chars_of("`"));
            },
            ScriptLangError::DeclaredTypeMismatch(t) => {
                let (name, literal) = declared_type_words(*t);
                push_all(&mut out, &chars_of("const declared as `"));
                push_all(&mut out, &name);
                push_all(&mut out, &chars_of("` must evaluate to "));
                push_all(&mut out, &literal);
                push_all(&mut out, &chars_of(" literal"));
            },
            ScriptLangError::At(issue, loc) => {
                issue.push_message(&mut out);
                push_all(&mut out, &chars_of(" at "));
                push_all(&mut out, &chars_of(loc.as_str()));
            },
            ScriptLangError::UnknownScript(q) => {
                push_all(&mut out, &chars_of("unknown script `"));
                push_all(&mut out, &chars_of(q.as_str()));
                push_all(&mut out, &chars_of("`"));
            },
            ScriptLangError::UnknownFunction(q) => {
                push_all(&mut out, &chars_of("unknown function `"));
                push_all(&mut out, &chars_of(q.as_str()));
                push_all(&mut out, &chars_of("`"));
            },
            ScriptLangError::InvalidScriptLiteralText(r) => {
                push_all(&mut out, &chars_of("invalid script literal `"));
                push_all(&mut out, &chars_of(r.as_str()));
                push_all(&mut out, &chars_of("`"));
            },
            ScriptLangError::InvalidFunctionLiteral(r) => {
                push_all(&mut out, &chars_of("invalid function literal `"));
                push_all(&mut out, &chars_of(r.as_str()));
                push_all(&mut out, &chars_of("`"));
            },
            ScriptLangError::ModuleDoesNotExist(m) => {
                push_all(&mut out, &chars_of("module `"));
                push_all(&mut out, &chars_of(m.as_str()));
                push_all(&mut out, &chars_of("` does not exist"));
            },
            ScriptLangError::ModuleDoesNotExportVar(m, n) => {
                push_all(&mut out, &chars_of("module `"));
                push_all(&mut out, &chars_of(m.as_str()));
                push_all(&mut out, &chars_of("` does not export var `"));
                push_all(&mut out, &chars_of(n.as_str()));
                push_all(&mut out, &chars_of("`"));
            },
            ScriptLangError::ModuleDoesNotExportFunction(m, n) => {
                push_all(&mut out, &chars_of("module `"));
                push_all(&mut out, &chars_of(m.as_str()));
                push_all(&mut out, &chars_of("` does not export function `"));
                push_all(&mut out, &chars_of(n.as_str()));
                push_all(&mut out, &chars_of("`"));
            },
            ScriptLangError::BreakOutsideLoop => {
                push_all(&mut out, &chars_of("<break> is only allowed inside <while>"));
            },
            ScriptLangError::ContinueOutsideLoop => {
                push_all(&mut out, &chars_of("<continue> is only allowed inside <while>"));
            },
            ScriptLangError::MissingModuleState(m) => {
                push_all(&mut out, &chars_of("module `"));
                push_all(&mut out, &chars_of(m.as_str()));
                push_all(&mut out, &chars_of("` missing expand-time state"));
            },
            ScriptLangError::MissingModuleName => {
                push_all(&mut out, &chars_of("missing module name in expand state"));
            },
            ScriptLangError::DuplicateFunction(q) => {
                push_all(&mut out, &chars_of("duplicate function declaration `"));
                push_all(&mut out, &chars_of(q.as_str()));
                push_all(&mut out, &chars_of("`"));
            },
            ScriptLangError::DuplicateScript(q) => {
                push_all(&mut out, &chars_of("duplicate script declaration `"));
                push_all(&mut out, &chars_of(q.as_str()));
                push_all(&mut out, &chars_of("`"));
            },
            ScriptLangError::AmbiguousGlobalShortName(n, a, b) => {
                push_all(&mut out, &chars_of("global short name `"));
                push_all(&mut out, &chars_of(n.as_str()));
                push_all(&mut out, &chars_of("` is ambiguous between `"));
                push_all(&mut out, &chars_of(a.as_str()));
                push_all(&mut out, &chars_of("` and `"));
                push_all(&mut out, &chars_of(b.as_str()));
                push_all(&mut out, &chars_of("`"));
            },
            ScriptLangError::NoScripts => {
                push_all(&mut out, &chars_of("no <script> declarations found"));
            },
            ScriptLangError::DefaultEntryMissing(q) => {
                push_all(&mut out, &chars_of("default entry script `"));
                push_all(&mut out, &chars_of(q.as_str()));
                push_all(&mut out, &chars_of("` does not exist"));
            },
            ScriptLangError::UnknownMacroLocal(k, x) => {
                push_all(&mut out, &chars_of("unknown macro local `"));
                push_all(&mut out, &chars_of(k.as_str()));
                push_all(&mut out, &chars_of("` referenced in "));
                push_all(&mut out, &chars_of(if *x { "expr" } else { "string" }));
                push_all(&mut out, &chars_of(" slot"));
            },
            ScriptLangError::NotSpliceable(k, x) => {
                push_all(&mut out, &chars_of("macro local `"));
                push_all(&mut out, &chars_of(k.as_str()));
                push_all(&mut out, &chars_of("` cannot be spliced into "));
                push_all(&mut out, &chars_of(if *x { "expr" } else { "string" }));
                push_all(&mut out, &chars_of(" slot"));
            },
            ScriptLangError::ReservedSessionModule(m) => {
                push_all(&mut out, &chars_of("module name `"));
                push_all(&mut out, &chars_of(m.as_str()));
                push_all(&mut out, &chars_of("` is reserved for api runtime entry"));
            },
            ScriptLangError::ModuleNameMissing => {
                push_all(&mut out, &chars_of("expected a <module> form with `name`"));
            },
            ScriptLangError::ModuleNameNotString => {
                push_all(&mut out, &chars_of("<module>.name must be a string"));
            },
        }
        assert(out@ =~= self.spec_message());
        string_from_chars(&out)
    }
}

} // verus!
