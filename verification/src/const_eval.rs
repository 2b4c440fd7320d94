//! Evaluation of const expressions: literals, arrays, objects, references
//! to other consts, and script and function literals.
use vstd::prelude::*;
use crate::collections::{NameMap, NameSet, compare_names, spec_entries_insert};
use crate::const_value::{ConstValue, ConstView, lemma_view_entries_len, spec_view_entries};
use crate::errors::{DeclaredType, ErrorView, ScriptLangError};
use crate::expr::scan::{lemma_ident_end, spec_ident_end};
use crate::resolve::{ResolverView, ScopeResolver};
use crate::text::{
    chars_of, is_ascii_digit, is_ident_continue, is_ident_start, is_whitespace, push_all,
    push_range, spec_is_ascii_digit, spec_is_ident_start, spec_is_whitespace, string_from_chars,
};

verus! {

/// What a qualified const lookup found.
pub enum QualifiedConstLookup {
    Value(ConstValue),
    /// The module exists but is not visible from the current module.
    HiddenModule,
    /// The module is visible but exports no such const.
    UnknownConst,
    /// The path names no module.
    NotModulePath,
}

pub enum QualifiedLookupView {
    Value(ConstView),
    HiddenModule,
    UnknownConst,
    NotModulePath,
}

impl View for QualifiedConstLookup {
    type V = QualifiedLookupView;

    open spec fn view(&self) -> QualifiedLookupView {
        match self {
            QualifiedConstLookup::Value(v) => QualifiedLookupView::Value(v@),
            QualifiedConstLookup::HiddenModule => QualifiedLookupView::HiddenModule,
            QualifiedConstLookup::UnknownConst => QualifiedLookupView::UnknownConst,
            QualifiedConstLookup::NotModulePath => QualifiedLookupView::NotModulePath,
        }
    }
}

pub open spec fn spec_opt_const_result(r: Result<Option<ConstValue>, ScriptLangError>) -> Result<Option<ConstView>, ErrorView> {
    match r {
        Ok(Some(v)) => Ok(Some(v@)),
        Ok(None) => Ok(None),
        Err(e) => Err(e@),
    }
}

pub open spec fn spec_lookup_result(r: Result<QualifiedConstLookup, ScriptLangError>) -> Result<QualifiedLookupView, ErrorView> {
    match r {
        Ok(l) => Ok(l@),
        Err(e) => Err(e@),
    }
}

pub open spec fn spec_string_result(r: Result<String, ScriptLangError>) -> Result<Seq<char>, ErrorView> {
    match r {
        Ok(s) => Ok(s@),
        Err(e) => Err(e@),
    }
}

/// Where const names are looked up: the current module, consts visible by
/// short name, consts of other modules, and script and function literals.
pub trait ConstLookup {
    spec fn spec_current_module(&self) -> Seq<char>;

    spec fn spec_short_const(&self, name: Seq<char>) -> Result<Option<ConstView>, ErrorView>;

    spec fn spec_qualified_const(&self, target_module: Seq<char>, name: Seq<char>) -> Result<QualifiedLookupView, ErrorView>;

    spec fn spec_function_literal(&self, raw: Seq<char>) -> Result<Seq<char>, ErrorView>;

    spec fn spec_script_literal(&self, raw: Seq<char>) -> Result<Seq<char>, ErrorView>;

    /// The module being compiled.
    fn current_module(&self) -> (r: &str)
        ensures
            r@ == self.spec_current_module(),
    ;

    /// A const visible by its short name.
    fn resolve_short_const(&self, name: &str) -> (r: Result<Option<ConstValue>, ScriptLangError>)
        ensures
            spec_opt_const_result(r) == self.spec_short_const(name@),
    ;

    /// A const of another module.
    fn resolve_qualified_const(&self, target_module: &str, name: &str) -> (r: Result<QualifiedConstLookup, ScriptLangError>)
        ensures
            spec_lookup_result(r) == self.spec_qualified_const(target_module@, name@),
    ;

    /// The qualified function a `#name` literal refers to.
    fn resolve_function_literal(&self, raw: &str) -> (r: Result<String, ScriptLangError>)
        ensures
            spec_string_result(r) == self.spec_function_literal(raw@),
    ;

    /// The qualified script a `@name` literal refers to.
    fn resolve_script_literal(&self, raw: &str) -> (r: Result<String, ScriptLangError>)
        ensures
            spec_string_result(r) == self.spec_script_literal(raw@),
    ;
}

/// First index at or after `i` that is not white space.
pub open spec fn spec_skip_ws(s: Seq<char>, i: int) -> int
    decreases s.len() - i,
{
    if i < 0 || i >= s.len() || !spec_is_whitespace(s[i]) {
        i
    } else {
        spec_skip_ws(s, i + 1)
    }
}

pub proof fn lemma_skip_ws(s: Seq<char>, i: int)
    requires
        0 <= i <= s.len(),
    ensures
        i <= spec_skip_ws(s, i) <= s.len(),
    decreases s.len() - i,
{
    if i < s.len() && spec_is_whitespace(s[i]) {
        lemma_skip_ws(s, i + 1);
    }
}

/// End of the run of ASCII digits that starts at `i`.
pub open spec fn spec_digits_end(s: Seq<char>, i: int) -> int
    decreases s.len() - i,
{
    if i < 0 || i >= s.len() || !spec_is_ascii_digit(s[i]) {
        i
    } else {
        spec_digits_end(s, i + 1)
    }
}

pub proof fn lemma_digits_end(s: Seq<char>, i: int)
    requires
        0 <= i <= s.len(),
    ensures
        i <= spec_digits_end(s, i) <= s.len(),
        forall|k: int| i <= k < spec_digits_end(s, i) ==> spec_is_ascii_digit(s[k]),
    decreases s.len() - i,
{
    if i < s.len() && spec_is_ascii_digit(s[i]) {
        lemma_digits_end(s, i + 1);
    }
}

/// The number the decimal digits `s[j..e]` write.
pub open spec fn spec_digits_value(s: Seq<char>, j: int, e: int) -> int
    decreases e - j,
{
    if e <= j {
        0
    } else {
        10 * spec_digits_value(s, j, e - 1) + (s[e - 1] as int - '0' as int)
    }
}

pub proof fn lemma_digits_value_monotone(s: Seq<char>, j: int, e: int)
    requires
        j <= e,
        forall|k: int| j <= k < e ==> spec_is_ascii_digit(s[k]),
    ensures
        spec_digits_value(s, j, e) >= 0,
    decreases e - j,
{
    if e > j {
        lemma_digits_value_monotone(s, j, e - 1);
    }
}

/// An integer literal at `i`: an optional `-` and decimal digits; a `.`
/// after the digits is refused, as is a value outside the `i64` range.
pub open spec fn spec_parse_number(s: Seq<char>, i: int) -> Result<(ConstView, int), ErrorView> {
    let j = if 0 <= i < s.len() && s[i] == '-' {
        i + 1
    } else {
        i
    };
    let e = spec_digits_end(s, j);
    if e == j {
        Err(ErrorView::InvalidNumber)
    } else if e < s.len() && s[e] == '.' {
        Err(ErrorView::FloatNotSupported)
    } else {
        let mag = spec_digits_value(s, j, e);
        let v = if j > i {
            -mag
        } else {
            mag
        };
        if i64::MIN <= v <= i64::MAX {
            Ok((ConstView::Integer(v), e))
        } else {
            Err(ErrorView::InvalidInteger(s.subrange(i, e)))
        }
    }
}

/// An identifier at `i` and the index after it.
pub open spec fn spec_parse_ident(s: Seq<char>, i: int) -> Result<(Seq<char>, int), ErrorView> {
    if i < 0 || i >= s.len() {
        Err(ErrorView::UnexpectedEndOfInput)
    } else if !spec_is_ident_start(s[i]) {
        Err(ErrorView::ExpectedIdentifier(s[i]))
    } else {
        Ok((s.subrange(i, spec_ident_end(s, i + 1)), spec_ident_end(s, i + 1)))
    }
}

pub proof fn lemma_parse_ident(s: Seq<char>, i: int)
    requires
        0 <= i,
    ensures
        spec_parse_ident(s, i) matches Ok((id, e)) ==> i < e <= s.len() && id.len() >= 1,
{
    if i < s.len() && spec_is_ident_start(s[i]) {
        lemma_ident_end(s, i + 1);
    }
}

/// More `.name` segments after a path's segments `segs`, from `i`.
pub open spec fn spec_path_rest(s: Seq<char>, i: int, segs: Seq<Seq<char>>) -> Result<(Seq<Seq<char>>, int), ErrorView>
    decreases s.len() - i,
{
    if 0 <= i < s.len() && s[i] == '.' {
        proof {
            lemma_parse_ident(s, i + 1);
        }
        match spec_parse_ident(s, i + 1) {
            Ok((id, e)) => spec_path_rest(s, e, segs.push(id)),
            Err(err) => Err(err),
        }
    } else {
        Ok((segs, i))
    }
}

/// A dotted path of identifiers at `i`; a `.` must be followed by an
/// identifier.
pub open spec fn spec_parse_path(s: Seq<char>, i: int) -> Result<(Seq<Seq<char>>, int), ErrorView> {
    match spec_parse_ident(s, i) {
        Ok((id, e)) => spec_path_rest(s, e, seq![id]),
        Err(err) => Err(err),
    }
}

/// The segments joined with `.`.
pub open spec fn spec_join_dots(segs: Seq<Seq<char>>) -> Seq<char>
    decreases segs.len(),
{
    if segs.len() == 0 {
        Seq::empty()
    } else if segs.len() == 1 {
        segs[0]
    } else {
        spec_join_dots(segs.drop_last()) + seq!['.'] + segs.last()
    }
}

/// What `\c` stands for in a const string literal.
pub open spec fn spec_unescape(c: char) -> char {
    if c == 'n' {
        '\n'
    } else if c == 'r' {
        '\r'
    } else if c == 't' {
        '\t'
    } else {
        c
    }
}

/// The text of a string literal whose body starts at `j` and which closes
/// with `q`, and the index after the closing quote.
pub open spec fn spec_string_body(s: Seq<char>, j: int, q: char) -> Result<(Seq<char>, int), ErrorView>
    decreases s.len() - j,
{
    if j < 0 || j >= s.len() {
        Err(ErrorView::UnterminatedStringLiteral)
    } else if s[j] == q {
        Ok((Seq::empty(), j + 1))
    } else if s[j] == '\\' {
        if j + 1 >= s.len() {
            Err(ErrorView::UnterminatedEscape)
        } else {
            match spec_string_body(s, j + 2, q) {
                Ok((t, e)) => Ok((seq![spec_unescape(s[j + 1])] + t, e)),
                Err(err) => Err(err),
            }
        }
    } else {
        match spec_string_body(s, j + 1, q) {
            Ok((t, e)) => Ok((seq![s[j]] + t, e)),
            Err(err) => Err(err),
        }
    }
}

/// A string literal opening at `i` with whatever quote stands there.
pub open spec fn spec_parse_string(s: Seq<char>, i: int) -> Result<(Seq<char>, int), ErrorView> {
    if i < 0 || i >= s.len() {
        Err(ErrorView::UnexpectedEndOfString)
    } else {
        spec_string_body(s, i + 1, s[i])
    }
}

pub proof fn lemma_string_body(s: Seq<char>, j: int, q: char)
    requires
        0 <= j,
    ensures
        spec_string_body(s, j, q) matches Ok((t, e)) ==> j < e <= s.len(),
    decreases s.len() - j,
{
    if j < s.len() && s[j] != q {
        if s[j] == '\\' {
            if j + 1 < s.len() {
                lemma_string_body(s, j + 2, q);
            }
        } else {
            lemma_string_body(s, j + 1, q);
        }
    }
}

/// The value a local const table holds under `name`.
pub open spec fn spec_env_get(env: Map<Seq<char>, ConstView>, name: Seq<char>) -> Option<ConstView> {
    if env.dom().contains(name) {
        Some(env[name])
    } else {
        None
    }
}

/// The values of a const environment, by name.
pub open spec fn spec_env_view(m: NameMap<ConstValue>) -> Map<Seq<char>, ConstView> {
    Map::new(|k: Seq<char>| m.spec_contains(k), |k: Seq<char>| m.spec_get(k)->0@)
}

/// The value a const reference with segments `segs` names: `true`, `false`,
/// a local const, a const visible by short name, or a const of the current
/// or another module.
pub open spec fn spec_resolve_reference(segs: Seq<Seq<char>>, env: Map<Seq<char>, ConstView>, r: ResolverView, blocked: Set<Seq<char>>) -> Result<ConstView, ErrorView> {
    if segs.len() == 1 {
        let id = segs[0];
        if id == "true"@ {
            Ok(ConstView::Bool(true))
        } else if id == "false"@ {
            Ok(ConstView::Bool(false))
        } else if spec_env_get(env, id) is Some {
            Ok(spec_env_get(env, id)->0)
        } else {
            match r.short_const(id) {
                Err(e) => Err(e),
                Ok(Some(v)) => Ok(v),
                Ok(None) => if blocked.contains(id) {
                    Err(ErrorView::ConstUsedBeforeDefinition(id))
                } else {
                    Err(ErrorView::UnsupportedConstReference(id))
                },
            }
        }
    } else {
        let target_module = spec_join_dots(segs.drop_last());
        let name = segs.last();
        if target_module == r.current_module() {
            match spec_env_get(env, name) {
                Some(v) => Ok(v),
                None => Err(ErrorView::ModuleDoesNotExportConst(target_module, name)),
            }
        } else {
            match r.qualified_const(target_module, name) {
                Err(e) => Err(e),
                Ok(QualifiedLookupView::Value(v)) => Ok(v),
                Ok(QualifiedLookupView::HiddenModule) => Err(
                    ErrorView::ModuleNotImported(target_module, r.current_module()),
                ),
                Ok(QualifiedLookupView::UnknownConst) => Err(
                    ErrorView::ModuleDoesNotExportConst(target_module, name),
                ),
                Ok(QualifiedLookupView::NotModulePath) => Err(
                    ErrorView::UnsupportedConstReference(spec_join_dots(segs)),
                ),
            }
        }
    }
}

/// A `@path` (script) or `#path` (function) literal whose sigil stands at
/// `j`, resolved.
pub open spec fn spec_parse_literal(s: Seq<char>, j: int, r: ResolverView) -> Result<(ConstView, int), ErrorView> {
    match spec_parse_path(s, j + 1) {
        Ok((segs, e)) => {
            let raw = seq![s[j]] + spec_join_dots(segs);
            if s[j] == '@' {
                match r.script_literal(raw) {
                    Ok(q) => Ok((ConstView::Script(q), e)),
                    Err(err) => Err(err),
                }
            } else {
                match r.function_literal(raw) {
                    Ok(q) => Ok((ConstView::Function(q), e)),
                    Err(err) => Err(err),
                }
            }
        },
        Err(err) => Err(err),
    }
}

/// A const value at `i` (after white space), and the index after it.
pub open spec fn spec_parse_value(s: Seq<char>, i: int, env: Map<Seq<char>, ConstView>, r: ResolverView, blocked: Set<Seq<char>>) -> Result<(ConstView, int), ErrorView>
    decreases s.len() - i, 1int,
{
    if i < 0 || i > s.len() {
        Err(ErrorView::EmptyConstExpression)
    } else {
        let j = spec_skip_ws(s, i);
        proof {
            lemma_skip_ws(s, i);
        }
        if j >= s.len() {
            Err(ErrorView::EmptyConstExpression)
        } else {
            let c = s[j];
            if c == '#' && !(j + 1 < s.len() && s[j + 1] == '{') {
                spec_parse_literal(s, j, r)
            } else if c == '@' {
                spec_parse_literal(s, j, r)
            } else if c == '"' || c == '\'' {
                match spec_parse_string(s, j) {
                    Ok((t, e)) => Ok((ConstView::String(t), e)),
                    Err(err) => Err(err),
                }
            } else if c == '[' {
                spec_array_items(s, j + 1, Seq::empty(), env, r, blocked)
            } else if c == '#' {
                spec_object_entries(s, j + 2, Seq::empty(), env, r, blocked)
            } else if c == '-' || spec_is_ascii_digit(c) {
                spec_parse_number(s, j)
            } else if spec_is_ident_start(c) {
                match spec_parse_path(s, j) {
                    Ok((segs, e)) => match spec_resolve_reference(segs, env, r, blocked) {
                        Ok(v) => Ok((v, e)),
                        Err(err) => Err(err),
                    },
                    Err(err) => Err(err),
                }
            } else {
                Err(ErrorView::UnsupportedConstStart(c))
            }
        }
    }
}

/// The rest of an array literal from `k`, after the items `acc`.
pub open spec fn spec_array_items(s: Seq<char>, k: int, acc: Seq<ConstView>, env: Map<Seq<char>, ConstView>, r: ResolverView, blocked: Set<Seq<char>>) -> Result<(ConstView, int), ErrorView>
    decreases s.len() - k, 2int,
{
    if k < 0 || k > s.len() {
        Err(ErrorView::EmptyConstExpression)
    } else {
        let k1 = spec_skip_ws(s, k);
        proof {
            lemma_skip_ws(s, k);
        }
        if k1 < s.len() && s[k1] == ']' {
            Ok((ConstView::Array(acc), k1 + 1))
        } else {
            match spec_parse_value(s, k1, env, r, blocked) {
                Err(err) => Err(err),
                Ok((v, e)) => if e <= k1 || e > s.len() {
                    Err(ErrorView::EmptyConstExpression)
                } else {
                    let k2 = spec_skip_ws(s, e);
                    proof {
                        lemma_skip_ws(s, e);
                    }
                    if k2 < s.len() && s[k2] == ']' {
                        Ok((ConstView::Array(acc.push(v)), k2 + 1))
                    } else if k2 < s.len() && s[k2] == ',' {
                        spec_array_items(s, k2 + 1, acc.push(v), env, r, blocked)
                    } else {
                        Err(ErrorView::ExpectedChar(','))
                    }
                },
            }
        }
    }
}

/// An object key at `k`: a string literal or an identifier.
pub open spec fn spec_parse_object_key(s: Seq<char>, k: int) -> Result<(Seq<char>, int), ErrorView> {
    let k1 = spec_skip_ws(s, k);
    if k1 < 0 || k1 >= s.len() {
        Err(ErrorView::UnexpectedEndOfObject)
    } else if s[k1] == '"' || s[k1] == '\'' {
        spec_parse_string(s, k1)
    } else if spec_is_ident_start(s[k1]) {
        spec_parse_ident(s, k1)
    } else {
        Err(ErrorView::UnsupportedObjectKey(s[k1]))
    }
}

/// The rest of an object literal from `k`, after the entries `acc`; a
/// repeated key keeps its last value.
pub open spec fn spec_object_entries(s: Seq<char>, k: int, acc: Seq<(Seq<char>, ConstView)>, env: Map<Seq<char>, ConstView>, r: ResolverView, blocked: Set<Seq<char>>) -> Result<(ConstView, int), ErrorView>
    decreases s.len() - k, 2int,
{
    if k < 0 || k > s.len() {
        Err(ErrorView::EmptyConstExpression)
    } else {
        let k1 = spec_skip_ws(s, k);
        proof {
            lemma_skip_ws(s, k);
        }
        if k1 < s.len() && s[k1] == '}' {
            Ok((ConstView::Object(acc), k1 + 1))
        } else {
            match spec_parse_object_key(s, k1) {
                Err(err) => Err(err),
                Ok((key, ke)) => if ke <= k1 || ke > s.len() {
                    Err(ErrorView::EmptyConstExpression)
                } else {
                    let k2 = spec_skip_ws(s, ke);
                    proof {
                        lemma_skip_ws(s, ke);
                    }
                    if !(k2 < s.len() && s[k2] == ':') {
                        Err(ErrorView::ExpectedChar(':'))
                    } else {
                        match spec_parse_value(s, k2 + 1, env, r, blocked) {
                            Err(err) => Err(err),
                            Ok((v, e)) => if e <= k2 + 1 || e > s.len() {
                                Err(ErrorView::EmptyConstExpression)
                            } else {
                                let acc2 = spec_entries_insert(acc, key, v);
                                let k3 = spec_skip_ws(s, e);
                                proof {
                                    lemma_skip_ws(s, e);
                                }
                                if k3 < s.len() && s[k3] == '}' {
                                    Ok((ConstView::Object(acc2), k3 + 1))
                                } else if k3 < s.len() && s[k3] == ',' {
                                    spec_object_entries(s, k3 + 1, acc2, env, r, blocked)
                                } else {
                                    Err(ErrorView::ExpectedChar(','))
                                }
                            },
                        }
                    }
                },
            }
        }
    }
}

/// Whether a value is of the kind a declared type asks for.
pub open spec fn spec_matches_declared_type(v: ConstView, t: DeclaredType) -> bool {
    match t {
        DeclaredType::Array => v is Array,
        DeclaredType::Bool => v is Bool,
        DeclaredType::Function => v is Function,
        DeclaredType::Int => v is Integer,
        DeclaredType::Object => v is Object,
        DeclaredType::Script => v is Script,
        DeclaredType::String => v is String,
    }
}

/// A whole const expression: one value, of the declared type when one is
/// given, with nothing but white space after it.
pub open spec fn spec_parse_const_value(s: Seq<char>, env: Map<Seq<char>, ConstView>, r: ResolverView, blocked: Set<Seq<char>>, expected: Option<DeclaredType>) -> Result<ConstView, ErrorView> {
    match spec_parse_value(s, 0, env, r, blocked) {
        Err(err) => Err(err),
        Ok((v, e)) => match expected {
            Some(t) if !spec_matches_declared_type(v, t) => Err(ErrorView::DeclaredTypeMismatch(t)),
            _ => if spec_skip_ws(s, e) < s.len() {
                Err(ErrorView::TrailingTokens(s))
            } else {
                Ok(v)
            },
        },
    }
}

pub open spec fn spec_value_result(r: Result<(ConstValue, usize), ScriptLangError>) -> Result<(ConstView, int), ErrorView> {
    match r {
        Ok((v, e)) => Ok((v@, e as int)),
        Err(err) => Err(err@),
    }
}

pub open spec fn spec_text_result(r: Result<(String, usize), ScriptLangError>) -> Result<(Seq<char>, int), ErrorView> {
    match r {
        Ok((t, e)) => Ok((t@, e as int)),
        Err(err) => Err(err@),
    }
}

pub open spec fn spec_segments_result(r: Result<(Vec<String>, usize), ScriptLangError>) -> Result<(Seq<Seq<char>>, int), ErrorView> {
    match r {
        Ok((segs, e)) => Ok((segs@.map_values(|x: String| x@), e as int)),
        Err(err) => Err(err@),
    }
}

/// The first `n` segments joined with `.`.
pub fn join_dots(segs: &[String], n: usize) -> (r: Vec<char>)
    requires
        n <= segs@.len(),
    ensures
        r@ == spec_join_dots(segs@.map_values(|x: String| x@).take(n as int)),
{
    let mut out: Vec<char> = Vec::new();
    let mut i: usize = 0;
    while i < n
        invariant
            i <= n <= segs@.len(),
            out@ == spec_join_dots(segs@.map_values(|x: String| x@).take(i as int)),
        decreases segs@.len() - i,
    {
        if i > 0 {
            out.push('.');
        }
        push_all(&mut out, &chars_of(segs[i].as_str()));
        proof {
            let t = segs@.map_values(|x: String| x@).take(i + 1);
            assert(t.drop_last() =~= segs@.map_values(|x: String| x@).take(i as int));
            assert(t.last() == segs@[i as int]@);
        }
        i = i + 1;
    }
    out
}

pub proof fn lemma_view_insert(old_m: NameMap<ConstValue>, new_m: NameMap<ConstValue>, key: String, value: ConstValue)
    requires
        new_m.spec_entries() == spec_entries_insert(old_m.spec_entries(), key@, value),
    ensures
        spec_view_entries(new_m.entries@) == spec_entries_insert(spec_view_entries(old_m.entries@), key@, value@),
{
    let oe = old_m.spec_entries();
    let ne = new_m.spec_entries();
    let ov = spec_view_entries(old_m.entries@);
    lemma_view_entries_len(old_m.entries@);
    lemma_view_entries_len(new_m.entries@);
    let ks1 = crate::collections::spec_keys_of(oe);
    let ks2 = crate::collections::spec_keys_of(ov);
    assert(ks1 =~= ks2);
    let p = crate::collections::spec_insert_pos(ks1, key@);
    crate::collections::lemma_insert_pos_bounds(ks1, key@);
    let target = spec_entries_insert(ov, key@, value@);
    assert(ne.len() == new_m.entries@.len());
    assert(oe.len() == old_m.entries@.len());
    assert forall|i: int| 0 <= i < old_m.entries@.len() implies #[trigger] oe[i] == (old_m.entries@[i].0@, old_m.entries@[i].1) by {}
    assert forall|i: int| 0 <= i < new_m.entries@.len() implies #[trigger] ne[i] == (new_m.entries@[i].0@, new_m.entries@[i].1) by {}
    if p < oe.len() && oe[p].0 == key@ {
        assert(ne == oe.update(p, (key@, value)));
        assert(ne.len() == oe.len());
        assert(forall|i: int| 0 <= i < ne.len() && i != p ==> ne[i] == oe[i]);
    } else {
        assert(ne == oe.insert(p, (key@, value)));
        assert(0 <= p <= oe.len()) by {
            crate::collections::lemma_insert_pos_bounds(ks1, key@);
        }
        assert(ne.len() == oe.len() + 1);
        assert(forall|i: int| 0 <= i < p ==> ne[i] == oe[i]);
        assert(forall|i: int| p < i < ne.len() ==> ne[i] == oe[i - 1]);
    }
    assert(spec_view_entries(new_m.entries@) =~= target) by {
        assert forall|i: int| 0 <= i < new_m.entries@.len() implies spec_view_entries(new_m.entries@)[i] == target[i] by {
            assert(ne[i] == (new_m.entries@[i].0@, new_m.entries@[i].1));
            if p < oe.len() && oe[p].0 == key@ {
                assert(i < oe.len());
                if i != p {
                    assert(ne[i] == oe[i]);
                }
            } else {
                if i < p {
                    assert(ne[i] == oe[i]);
                } else if i > p {
                    assert(ne[i] == oe[i - 1]);
                }
            }
        }
    }
}

/// A const expression parser: the text, and where names are looked up.
pub struct ConstParser<'a> {
    pub source: Vec<char>,
    pub local_env: &'a NameMap<ConstValue>,
    pub resolver: &'a ScopeResolver<'a>,
    pub blocked_names: &'a NameSet,
    pub expected_type: Option<DeclaredType>,
}

impl<'a> ConstParser<'a> {
    pub open spec fn wf(&self) -> bool {
        self.local_env.wf() && self.blocked_names.wf()
    }

    /// First index at or after `cursor` that is not white space.
    pub fn skip_ws(&self, cursor: usize) -> (r: usize)
        requires
            cursor <= self.source@.len(),
        ensures
            r == spec_skip_ws(self.source@, cursor as int),
            cursor <= r <= self.source@.len(),
    {
        proof {
            lemma_skip_ws(self.source@, cursor as int);
        }
        let mut c = cursor;
        while c < self.source.len() && is_whitespace(self.source[c])
            invariant
                cursor <= c <= self.source@.len(),
                spec_skip_ws(self.source@, c as int) == spec_skip_ws(self.source@, cursor as int),
            decreases self.source@.len() - c,
        {
            c = c + 1;
        }
        c
    }

    /// An identifier at `cursor`.
    pub fn parse_ident(&self, cursor: usize) -> (r: Result<(String, usize), ScriptLangError>)
        requires
            cursor <= self.source@.len(),
        ensures
            spec_text_result(r) == spec_parse_ident(self.source@, cursor as int),
            r matches Ok((t, e)) ==> cursor < e <= self.source@.len(),
    {
        if cursor >= self.source.len() {
            return Err(ScriptLangError::UnexpectedEndOfInput);
        }
        let ch = self.source[cursor];
        if !is_ident_start(ch) {
            return Err(ScriptLangError::ExpectedIdentifier(ch));
        }
        proof {
            lemma_ident_end(self.source@, cursor + 1);
        }
        let mut c = cursor + 1;
        while c < self.source.len() && is_ident_continue(self.source[c])
            invariant
                cursor < c <= self.source@.len(),
                spec_ident_end(self.source@, c as int) == spec_ident_end(self.source@, cursor + 1),
            decreases self.source@.len() - c,
        {
            c = c + 1;
        }
        let mut out: Vec<char> = Vec::new();
        push_range(&mut out, &self.source, cursor, c);
        Ok((string_from_chars(&out), c))
    }

    /// A dotted path of identifiers at `cursor`.
    pub fn parse_reference_path(&self, cursor: usize) -> (r: Result<(Vec<String>, usize), ScriptLangError>)
        requires
            cursor <= self.source@.len(),
        ensures
            spec_segments_result(r) == spec_parse_path(self.source@, cursor as int),
            r matches Ok((segs, e)) ==> cursor < e <= self.source@.len() && segs@.len() >= 1,
    {
        let (first, mut c) = match self.parse_ident(cursor) {
            Ok(x) => x,
            Err(e) => {
                return Err(e);
            },
        };
        let mut segments: Vec<String> = Vec::new();
        segments.push(first);
        assert(segments@.map_values(|x: String| x@) =~= seq![first@]);
        while c < self.source.len() && self.source[c] == '.'
            invariant
                cursor < c <= self.source@.len(),
                segments@.len() >= 1,
                spec_parse_path(self.source@, cursor as int) == spec_path_rest(
                    self.source@,
                    c as int,
                    segments@.map_values(|x: String| x@),
                ),
            decreases self.source@.len() - c,
        {
            match self.parse_ident(c + 1) {
                Ok((id, e)) => {
                    let ghost old_view = segments@.map_values(|x: String| x@);
                    segments.push(id);
                    assert(segments@.map_values(|x: String| x@) =~= old_view.push(id@));
                    c = e;
                },
                Err(err) => {
                    return Err(err);
                },
            }
        }
        Ok((segments, c))
    }

    /// A string literal at `cursor`; its escapes are decoded.
    pub fn parse_string(&self, cursor: usize) -> (r: Result<(String, usize), ScriptLangError>)
        requires
            cursor <= self.source@.len(),
        ensures
            spec_text_result(r) == spec_parse_string(self.source@, cursor as int),
            r matches Ok((t, e)) ==> cursor < e <= self.source@.len(),
    {
        if cursor >= self.source.len() {
            return Err(ScriptLangError::UnexpectedEndOfString);
        }
        let quote = self.source[cursor];
        let mut c = cursor + 1;
        let mut value: Vec<char> = Vec::new();
        proof {
            lemma_string_body(self.source@, cursor + 1, quote);
        }
        while c < self.source.len()
            invariant
                cursor < c <= self.source@.len(),
                quote == self.source@[cursor as int],
                match spec_string_body(self.source@, c as int, quote) {
                    Ok((t, e)) => spec_string_body(self.source@, cursor + 1, quote) == Ok::<(Seq<char>, int), ErrorView>((value@ + t, e)),
                    Err(err) => spec_string_body(self.source@, cursor + 1, quote) == Err::<(Seq<char>, int), ErrorView>(err),
                },
            decreases self.source@.len() - c,
        {
            let ch = self.source[c];
            let ghost old_value = value@;
            if ch == quote {
                assert(value@ + Seq::<char>::empty() =~= value@);
                proof {
                    lemma_string_body(self.source@, cursor + 1, quote);
                }
                return Ok((string_from_chars(&value), c + 1));
            }
            if ch == '\\' {
                if c + 1 >= self.source.len() {
                    return Err(ScriptLangError::UnterminatedEscape);
                }
                let escaped = self.source[c + 1];
                let decoded = if escaped == 'n' {
                    '\n'
                } else if escaped == 'r' {
                    '\r'
                } else if escaped == 't' {
                    '\t'
                } else {
                    escaped
                };
                value.push(decoded);
                proof {
                    match spec_string_body(self.source@, c + 2, quote) {
                        Ok((t, e)) => {
                            assert(value@ + t =~= old_value + (seq![decoded] + t));
                        },
                        Err(err) => {},
                    }
                }
                c = c + 2;
            } else {
                value.push(ch);
                proof {
                    match spec_string_body(self.source@, c + 1, quote) {
                        Ok((t, e)) => {
                            assert(value@ + t =~= old_value + (seq![ch] + t));
                        },
                        Err(err) => {},
                    }
                }
                c = c + 1;
            }
        }
        Err(ScriptLangError::UnterminatedStringLiteral)
    }

    /// An integer literal at `cursor`.
    pub fn parse_number(&self, cursor: usize) -> (r: Result<(ConstValue, usize), ScriptLangError>)
        requires
            cursor <= self.source@.len(),
        ensures
            spec_value_result(r) == spec_parse_number(self.source@, cursor as int),
            r matches Ok((v, e)) ==> cursor < e <= self.source@.len(),
    {
        let start = cursor;
        let mut c = cursor;
        if c < self.source.len() && self.source[c] == '-' {
            c = c + 1;
        }
        let digit_start = c;
        let mut mag: u64 = 0;
        let mut overflow = false;
        proof {
            lemma_digits_end(self.source@, digit_start as int);
        }
        while c < self.source.len() && is_ascii_digit(self.source[c])
            invariant
                start <= digit_start <= c <= self.source@.len(),
                digit_start <= start + 1,
                spec_digits_end(self.source@, digit_start as int) == spec_digits_end(self.source@, c as int),
                forall|k: int| digit_start <= k < c ==> spec_is_ascii_digit(self.source@[k]),
                !overflow ==> mag == spec_digits_value(self.source@, digit_start as int, c as int)
                    && mag <= 9223372036854775808u64,
                overflow ==> spec_digits_value(self.source@, digit_start as int, c as int) > 9223372036854775808,
            decreases self.source@.len() - c,
        {
            let ch = self.source[c];
            let d: u64 = (ch as u32 - '0' as u32) as u64;
            assert(d == ch as int - '0' as int);
            proof {
                lemma_digits_value_monotone(self.source@, digit_start as int, c as int);
            }
            if !overflow {
                if mag > 922337203685477580u64 || (mag == 922337203685477580u64 && d > 8) {
                    overflow = true;
                } else {
                    mag = mag * 10 + d;
                }
            }
            c = c + 1;
        }
        if c == digit_start {
            return Err(ScriptLangError::InvalidNumber);
        }
        if c < self.source.len() && self.source[c] == '.' {
            return Err(ScriptLangError::FloatNotSupported);
        }
        let negative = digit_start > start;
        if overflow || (!negative && mag > 9223372036854775807u64) {
            let mut raw: Vec<char> = Vec::new();
            push_range(&mut raw, &self.source, start, c);
            return Err(ScriptLangError::InvalidInteger(string_from_chars(&raw)));
        }
        let value: i64 = if negative {
            if mag == 9223372036854775808u64 {
                i64::MIN
            } else {
                0i64 - (mag as i64)
            }
        } else {
            mag as i64
        };
        Ok((ConstValue::Integer(value), c))
    }

    /// A reference to a const at `cursor`: `true`, `false`, or a (dotted)
    /// const name, resolved.
    pub fn parse_reference_value(&self, cursor: usize) -> (r: Result<(ConstValue, usize), ScriptLangError>)
        requires
            cursor <= self.source@.len(),
            self.wf(),
        ensures
            match spec_parse_path(self.source@, cursor as int) {
                Ok((segs, e)) => spec_value_result(r) == match spec_resolve_reference(segs, spec_env_view(*self.local_env), self.resolver@, self.blocked_names.view_set()) {
                    Ok(v) => Ok::<(ConstView, int), ErrorView>((v, e)),
                    Err(err) => Err(err),
                },
                Err(err) => spec_value_result(r) == Err::<(ConstView, int), ErrorView>(err),
            },
            r matches Ok((v, e)) ==> cursor < e <= self.source@.len(),
    {
        let (segments, end) = match self.parse_reference_path(cursor) {
            Ok(x) => x,
            Err(e) => {
                return Err(e);
            },
        };
        let ghost segs = segments@.map_values(|x: String| x@);
        let n = segments.len();
        if n == 1 {
            let ident = segments[0].as_str();
            assert(ident@ == segs[0]);
            if compare_names(ident, "true") == 0 {
                return Ok((ConstValue::Bool(true), end));
            }
            if compare_names(ident, "false") == 0 {
                return Ok((ConstValue::Bool(false), end));
            }
            match self.local_env.get(ident) {
                Some(v) => {
                    return Ok((v.copy_value(), end));
                },
                None => {},
            }
            match self.resolver.resolve_short_const(ident) {
                Err(e) => {
                    return Err(e);
                },
                Ok(Some(v)) => {
                    return Ok((v, end));
                },
                Ok(None) => {},
            }
            if self.blocked_names.contains(ident) {
                return Err(ScriptLangError::ConstUsedBeforeDefinition(segments[0].clone()));
            }
            return Err(ScriptLangError::UnsupportedConstReference(segments[0].clone()));
        }
        let module_chars = join_dots(&segments, n - 1);
        assert(segs.take(n - 1) =~= segs.drop_last());
        let target_module = string_from_chars(&module_chars);
        let name = segments[n - 1].as_str();
        assert(name@ == segs.last());
        let current = self.resolver.current_module();
        if compare_names(target_module.as_str(), current) == 0 {
            return match self.local_env.get(name) {
                Some(v) => Ok((v.copy_value(), end)),
                None => Err(ScriptLangError::ModuleDoesNotExportConst(target_module, segments[n - 1].clone())),
            };
        }
        match self.resolver.resolve_qualified_const(target_module.as_str(), name) {
            Err(e) => Err(e),
            Ok(QualifiedConstLookup::Value(v)) => Ok((v, end)),
            Ok(QualifiedConstLookup::HiddenModule) => {
                let cur = string_from_chars(&chars_of(current));
                Err(ScriptLangError::ModuleNotImported(target_module, cur))
            },
            Ok(QualifiedConstLookup::UnknownConst) => Err(
                ScriptLangError::ModuleDoesNotExportConst(target_module, segments[n - 1].clone()),
            ),
            Ok(QualifiedConstLookup::NotModulePath) => {
                let all = join_dots(&segments, n);
                assert(segs.take(n as int) =~= segs);
                Err(ScriptLangError::UnsupportedConstReference(string_from_chars(&all)))
            },
        }
    }

    fn literal_text(&self, cursor: usize) -> (r: Result<(String, usize), ScriptLangError>)
        requires
            cursor < self.source.len(),
        ensures
            match spec_parse_path(self.source@, cursor + 1) {
                Ok((segs, e)) => spec_text_result(r) == Ok::<(Seq<char>, int), ErrorView>((seq![self.source@[cursor as int]] + spec_join_dots(segs), e)),
                Err(err) => spec_text_result(r) == Err::<(Seq<char>, int), ErrorView>(err),
            },
            r matches Ok((t, e)) ==> cursor + 1 < e <= self.source@.len(),
    {
        let (segments, end) = match self.parse_reference_path(cursor + 1) {
            Ok(x) => x,
            Err(e) => {
                return Err(e);
            },
        };
        let mut text: Vec<char> = Vec::new();
        text.push(self.source[cursor]);
        let joined = join_dots(&segments, segments.len());
        assert(segments@.map_values(|x: String| x@).take(segments@.len() as int) =~= segments@.map_values(|x: String| x@));
        push_all(&mut text, &joined);
        Ok((string_from_chars(&text), end))
    }

    /// A `@script` literal at `cursor`, resolved.
    pub fn parse_script_literal(&self, cursor: usize) -> (r: Result<(ConstValue, usize), ScriptLangError>)
        requires
            cursor < self.source@.len(),
            self.source@[cursor as int] == '@',
        ensures
            spec_value_result(r) == spec_parse_literal(self.source@, cursor as int, self.resolver@),
            r matches Ok((v, e)) ==> cursor < e <= self.source@.len(),
    {
        let (literal, end) = match self.literal_text(cursor) {
            Ok(x) => x,
            Err(e) => {
                return Err(e);
            },
        };
        match self.resolver.resolve_script_literal(literal.as_str()) {
            Ok(q) => Ok((ConstValue::Script(q), end)),
            Err(e) => Err(e),
        }
    }

    /// A `#function` literal at `cursor`, resolved.
    pub fn parse_function_literal(&self, cursor: usize) -> (r: Result<(ConstValue, usize), ScriptLangError>)
        requires
            cursor < self.source@.len(),
            self.source@[cursor as int] == '#',
        ensures
            spec_value_result(r) == spec_parse_literal(self.source@, cursor as int, self.resolver@),
            r matches Ok((v, e)) ==> cursor < e <= self.source@.len(),
    {
        let (literal, end) = match self.literal_text(cursor) {
            Ok(x) => x,
            Err(e) => {
                return Err(e);
            },
        };
        match self.resolver.resolve_function_literal(literal.as_str()) {
            Ok(q) => Ok((ConstValue::Function(q), end)),
            Err(e) => Err(e),
        }
    }

    /// A const value at `cursor`, after white space.
    pub fn parse_value(&self, cursor: usize) -> (r: Result<(ConstValue, usize), ScriptLangError>)
        requires
            cursor <= self.source@.len(),
            self.wf(),
        ensures
            spec_value_result(r) == spec_parse_value(self.source@, cursor as int, spec_env_view(*self.local_env), self.resolver@, self.blocked_names.view_set()),
            r matches Ok((v, e)) ==> cursor < e <= self.source@.len(),
        decreases self.source@.len() - cursor, 1int,
    {
        let j = self.skip_ws(cursor);
        if j >= self.source.len() {
            return Err(ScriptLangError::EmptyConstExpression);
        }
        let ch = self.source[j];
        if ch == '#' && !(j + 1 < self.source.len() && self.source[j + 1] == '{') {
            self.parse_function_literal(j)
        } else if ch == '@' {
            self.parse_script_literal(j)
        } else if ch == '"' || ch == '\'' {
            match self.parse_string(j) {
                Ok((t, e)) => Ok((ConstValue::String(t), e)),
                Err(err) => Err(err),
            }
        } else if ch == '[' {
            self.parse_array(j)
        } else if ch == '#' {
            self.parse_object(j)
        } else if ch == '-' || is_ascii_digit(ch) {
            self.parse_number(j)
        } else if is_ident_start(ch) {
            self.parse_reference_value(j)
        } else {
            Err(ScriptLangError::UnsupportedConstStart(ch))
        }
    }

    /// An array literal whose `[` stands at `cursor`.
    pub fn parse_array(&self, cursor: usize) -> (r: Result<(ConstValue, usize), ScriptLangError>)
        requires
            cursor < self.source.len(),
            self.source@[cursor as int] == '[',
            self.wf(),
        ensures
            spec_value_result(r) == spec_array_items(self.source@, cursor + 1, Seq::empty(), spec_env_view(*self.local_env), self.resolver@, self.blocked_names.view_set()),
            r matches Ok((v, e)) ==> cursor < e <= self.source@.len(),
        decreases self.source@.len() - cursor, 0int,
    {
        let mut items: Vec<ConstValue> = Vec::new();
        let mut k = cursor + 1;
        assert(crate::const_value::spec_view_values(items@) =~= Seq::<ConstView>::empty());
        loop
            invariant
                cursor < k <= self.source@.len(),
                self.wf(),
                spec_array_items(self.source@, k as int, crate::const_value::spec_view_values(items@), spec_env_view(*self.local_env), self.resolver@, self.blocked_names.view_set())
                    == spec_array_items(self.source@, cursor + 1, Seq::empty(), spec_env_view(*self.local_env), self.resolver@, self.blocked_names.view_set()),
            decreases self.source@.len() - k,
        {
            let k1 = self.skip_ws(k);
            if k1 < self.source.len() && self.source[k1] == ']' {
                return Ok((ConstValue::Array(items), k1 + 1));
            }
            let (v, e) = match self.parse_value(k1) {
                Ok(x) => x,
                Err(err) => {
                    return Err(err);
                },
            };
            let k2 = self.skip_ws(e);
            let ghost old_items = items@;
            items.push(v);
            assert(items@.drop_last() =~= old_items);
            if k2 < self.source.len() && self.source[k2] == ']' {
                return Ok((ConstValue::Array(items), k2 + 1));
            }
            if k2 < self.source.len() && self.source[k2] == ',' {
                k = k2 + 1;
            } else {
                return Err(ScriptLangError::ExpectedChar(','));
            }
        }
    }

    /// An object key at `cursor`: a string literal or an identifier.
    pub fn parse_object_key(&self, cursor: usize) -> (r: Result<(String, usize), ScriptLangError>)
        requires
            cursor <= self.source@.len(),
        ensures
            spec_text_result(r) == spec_parse_object_key(self.source@, cursor as int),
            r matches Ok((t, e)) ==> cursor < e <= self.source@.len(),
    {
        let k = self.skip_ws(cursor);
        if k >= self.source.len() {
            return Err(ScriptLangError::UnexpectedEndOfObject);
        }
        let ch = self.source[k];
        if ch == '"' || ch == '\'' {
            self.parse_string(k)
        } else if is_ident_start(ch) {
            self.parse_ident(k)
        } else {
            Err(ScriptLangError::UnsupportedObjectKey(ch))
        }
    }

    /// An object literal whose `#{` stands at `cursor`; a repeated key keeps
    /// its last value.
    pub fn parse_object(&self, cursor: usize) -> (r: Result<(ConstValue, usize), ScriptLangError>)
        requires
            cursor + 1 < self.source.len(),
            self.source@[cursor as int] == '#',
            self.source@[cursor + 1] == '{',
            self.wf(),
        ensures
            spec_value_result(r) == spec_object_entries(self.source@, cursor + 2, Seq::empty(), spec_env_view(*self.local_env), self.resolver@, self.blocked_names.view_set()),
            r matches Ok((v, e)) ==> cursor < e <= self.source@.len(),
        decreases self.source@.len() - cursor, 0int,
    {
        let mut items: NameMap<ConstValue> = NameMap::new();
        let mut k = cursor + 2;
        assert(spec_view_entries(items.entries@) =~= Seq::<(Seq<char>, ConstView)>::empty());
        loop
            invariant
                cursor + 2 <= k <= self.source@.len(),
                self.wf(),
                items.wf(),
                spec_object_entries(self.source@, k as int, spec_view_entries(items.entries@), spec_env_view(*self.local_env), self.resolver@, self.blocked_names.view_set())
                    == spec_object_entries(self.source@, cursor + 2, Seq::empty(), spec_env_view(*self.local_env), self.resolver@, self.blocked_names.view_set()),
            decreases self.source@.len() - k,
        {
            let k1 = self.skip_ws(k);
            if k1 < self.source.len() && self.source[k1] == '}' {
                return Ok((ConstValue::Object(items), k1 + 1));
            }
            let (key, ke) = match self.parse_object_key(k1) {
                Ok(x) => x,
                Err(err) => {
                    return Err(err);
                },
            };
            let k2 = self.skip_ws(ke);
            if !(k2 < self.source.len() && self.source[k2] == ':') {
                return Err(ScriptLangError::ExpectedChar(':'));
            }
            let (v, e) = match self.parse_value(k2 + 1) {
                Ok(x) => x,
                Err(err) => {
                    return Err(err);
                },
            };
            let ghost old_items = items;
            let ghost kv = key;
            let ghost vv = v;
            items.insert(key, v);
            proof {
                lemma_view_insert(old_items, items, kv, vv);
            }
            let k3 = self.skip_ws(e);
            if k3 < self.source.len() && self.source[k3] == '}' {
                return Ok((ConstValue::Object(items), k3 + 1));
            }
            if k3 < self.source.len() && self.source[k3] == ',' {
                k = k3 + 1;
            } else {
                return Err(ScriptLangError::ExpectedChar(','));
            }
        }
    }

    /// The value, when it is of the declared type (or none is declared).
    pub fn check_declared_type(&self, value: ConstValue) -> (r: Result<ConstValue, ScriptLangError>)
        ensures
            match self.expected_type {
                Some(t) => if spec_matches_declared_type(value@, t) {
                    r matches Ok(v) && v@ == value@
                } else {
                    r matches Err(e) && e@ == ErrorView::DeclaredTypeMismatch(t)
                },
                None => r matches Ok(v) && v@ == value@,
            },
    {
        match self.expected_type {
            None => Ok(value),
            Some(t) => {
                let ok = match t {
                    DeclaredType::Array => match &value {
                        ConstValue::Array(_) => true,
                        _ => false,
                    },
                    DeclaredType::Bool => match &value {
                        ConstValue::Bool(_) => true,
                        _ => false,
                    },
                    DeclaredType::Function => match &value {
                        ConstValue::Function(_) => true,
                        _ => false,
                    },
                    DeclaredType::Int => match &value {
                        ConstValue::Integer(_) => true,
                        _ => false,
                    },
                    DeclaredType::Object => match &value {
                        ConstValue::Object(_) => true,
                        _ => false,
                    },
                    DeclaredType::Script => match &value {
                        ConstValue::Script(_) => true,
                        _ => false,
                    },
                    DeclaredType::String => match &value {
                        ConstValue::String(_) => true,
                        _ => false,
                    },
                };
                if ok {
                    Ok(value)
                } else {
                    Err(ScriptLangError::DeclaredTypeMismatch(t))
                }
            },
        }
    }
}

} // verus!

verus! {

/// Evaluates a const expression: one literal or const reference, checked
/// against the declared type when one is given, with nothing but white space
/// after it.
pub fn parse_const_value(
    source: &str,
    local_env: &NameMap<ConstValue>,
    resolver: &ScopeResolver<'_>,
    blocked_names: &NameSet,
    expected_type: Option<DeclaredType>,
) -> (r: Result<ConstValue, ScriptLangError>)
    requires
        local_env.wf(),
        blocked_names.wf(),
    ensures
        match r {
            Ok(v) => spec_parse_const_value(source@, spec_env_view(*local_env), resolver@, blocked_names.view_set(), expected_type) == Ok::<ConstView, ErrorView>(v@),
            Err(e) => spec_parse_const_value(source@, spec_env_view(*local_env), resolver@, blocked_names.view_set(), expected_type) == Err::<ConstView, ErrorView>(e@),
        },
{
    let parser = ConstParser {
        source: chars_of(source),
        local_env,
        resolver,
        blocked_names,
        expected_type,
    };
    let (value, end) = match parser.parse_value(0) {
        Ok(x) => x,
        Err(e) => {
            return Err(e);
        },
    };
    let value = match parser.check_declared_type(value) {
        Ok(v) => v,
        Err(e) => {
            return Err(e);
        },
    };
    let rest = parser.skip_ws(end);
    if rest < parser.source.len() {
        return Err(ScriptLangError::TrailingTokens(string_from_chars(&parser.source)));
    }
    Ok(value)
}

} // verus!
