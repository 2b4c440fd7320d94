//! Quoting inside macro bodies: `${name}` slots in text and expressions are
//! filled with macro locals, `<unquote>` brings a local's value into a
//! quoted expression, and fresh names keep macro temporaries apart.
use vstd::prelude::*;
use crate::collections::NameMap;
use crate::const_value::{dec_digits, decimal_string, spec_dec_digits, spec_decimal};
use crate::errors::{ErrorView, FormIssue, FormIssueView, ScriptLangError};
use crate::expr::rewrite::{rewrite_expr_idents, spec_rewrite_expr_idents};
use crate::form::{Form, FormItem, FormValue, error_at, spec_error_at};
use crate::macros::MacroValue;
use crate::text::{
    chars_of, find_char, lemma_find_char_bounds, push_all, push_range, spec_find_char, spec_trim, string_from_chars,
    trim_range,
};

verus! {

/// What a macro invocation runs with: where it was invoked, its arguments,
/// its locals, and the counter its fresh names are numbered by.
#[derive(Debug)]
pub struct MacroEnv {
    pub current_module: Option<String>,
    pub imports: Vec<String>,
    pub requires: Vec<String>,
    pub aliases: NameMap<String>,
    pub macro_name: String,
    pub attributes: NameMap<String>,
    pub content: Vec<FormItem>,
    pub locals: NameMap<MacroValue>,
    pub gensym_seed: usize,
    pub gensym_counter: usize,
}

impl Default for MacroEnv {
    /// An invocation with nothing: no module, no arguments, no locals.
    fn default() -> (r: Self)
        ensures
            r.current_module is None,
            r.locals.wf(),
            r.locals.entries@.len() == 0,
            r.macro_name@.len() == 0,
            r.gensym_seed == 0,
            r.gensym_counter == 0,
    {
        MacroEnv {
            current_module: None,
            imports: Vec::new(),
            requires: Vec::new(),
            aliases: NameMap::new(),
            macro_name: String::new(),
            attributes: NameMap::new(),
            content: Vec::new(),
            locals: NameMap::new(),
            gensym_seed: 0,
            gensym_counter: 0,
        }
    }
}

/// The text a scalar macro value is spliced as: expression text only into
/// an expression slot, strings, booleans and integers into either.
pub open spec fn spec_slot_text(v: MacroValue, expr: bool) -> Option<Seq<char>> {
    match v {
        MacroValue::Expr(t) => if expr {
            Some(t@)
        } else {
            None
        },
        MacroValue::String(t) => Some(t@),
        MacroValue::Bool(b) => Some(
            if b {
                "true"@
            } else {
                "false"@
            },
        ),
        MacroValue::Int(n) => Some(spec_decimal(n as int)),
        _ => None,
    }
}

/// Where the first `${` at or after `i` starts.
pub open spec fn spec_find_hole(s: Seq<char>, i: int) -> Option<int>
    decreases s.len() - i,
{
    if i < 0 || i + 1 >= s.len() {
        None
    } else if s[i] == '$' && s[i + 1] == '{' {
        Some(i)
    } else {
        spec_find_hole(s, i + 1)
    }
}

pub proof fn lemma_find_hole(s: Seq<char>, i: int)
    requires
        0 <= i,
    ensures
        spec_find_hole(s, i) matches Some(k) ==> i <= k && k + 1 < s.len() && s[k] == '$' && s[k + 1] == '{',
    decreases s.len() - i,
{
    if i + 1 < s.len() && !(s[i] == '$' && s[i + 1] == '{') {
        lemma_find_hole(s, i + 1);
    }
}

/// `s` from `cursor` with each `${name}` slot replaced by the text of the
/// local `name` (trimmed); a slot without `}` and what follows are kept.
pub open spec fn spec_splice_from(s: Seq<char>, cursor: int, locals: NameMap<MacroValue>, expr: bool) -> Result<Seq<char>, ErrorView>
    decreases s.len() - cursor,
{
    if cursor < 0 || cursor > s.len() {
        Ok(Seq::empty())
    } else {
        match spec_find_hole(s, cursor) {
            None => Ok(s.subrange(cursor, s.len() as int)),
            Some(start) => {
                proof {
                    lemma_find_hole(s, cursor);
                    lemma_find_char_bounds(s, start + 2, '}');
                }
                match spec_find_char(s, start + 2, '}') {
                    None => Ok(s.subrange(cursor, s.len() as int)),
                    Some(end) => {
                        let key = spec_trim(s.subrange(start + 2, end));
                        match locals.spec_get(key) {
                            None => Err(ErrorView::UnknownMacroLocal(key, expr)),
                            Some(v) => match spec_slot_text(v, expr) {
                                None => Err(ErrorView::NotSpliceable(key, expr)),
                                Some(t) => match spec_splice_from(s, end + 1, locals, expr) {
                                    Ok(rest) => Ok(s.subrange(cursor, start) + t + rest),
                                    Err(e) => Err(e),
                                },
                            },
                        }
                    },
                }
            },
        }
    }
}

/// The text of a scalar macro value.
fn push_slot_text(out: &mut Vec<char>, v: &MacroValue, expr: bool) -> (ok: bool)
    ensures
        ok == spec_slot_text(*v, expr) is Some,
        ok ==> final(out)@ == old(out)@ + spec_slot_text(*v, expr)->0,
        !ok ==> final(out)@ == old(out)@,
{
    match v {
        MacroValue::Expr(t) => {
            if expr {
                push_all(out, &chars_of(t.as_str()));
                true
            } else {
                false
            }
        },
        MacroValue::String(t) => {
            push_all(out, &chars_of(t.as_str()));
            true
        },
        MacroValue::Bool(b) => {
            push_all(out, &chars_of(if *b { "true" } else { "false" }));
            true
        },
        MacroValue::Int(n) => {
            push_all(out, &decimal_string(*n));
            true
        },
        _ => false,
    }
}

fn splice_slots(source: &str, locals: &NameMap<MacroValue>, expr: bool) -> (r: Result<String, ScriptLangError>)
    requires
        locals.wf(),
    ensures
        match r {
            Ok(t) => spec_splice_from(source@, 0, *locals, expr) == Ok::<Seq<char>, ErrorView>(t@),
            Err(e) => spec_splice_from(source@, 0, *locals, expr) == Err::<Seq<char>, ErrorView>(e@),
        },
{
    let src = chars_of(source);
    let mut out: Vec<char> = Vec::new();
    let mut cursor: usize = 0;
    let ghost target = spec_splice_from(src@, 0, *locals, expr);
    loop
        invariant
            locals.wf(),
            src@ == source@,
            cursor <= src@.len(),
            target == spec_splice_from(src@, 0, *locals, expr),
            match spec_splice_from(src@, cursor as int, *locals, expr) {
                Ok(rest) => target == Ok::<Seq<char>, ErrorView>(out@ + rest),
                Err(e) => target == Err::<Seq<char>, ErrorView>(e),
            },
        decreases src@.len() - cursor,
    {
        proof {
            lemma_find_hole(src@, cursor as int);
        }
        let mut start = cursor;
        while start < src.len() && start + 1 < src.len() && !(src[start] == '$' && src[start + 1] == '{')
            invariant
                cursor <= start <= src@.len(),
                spec_find_hole(src@, start as int) == spec_find_hole(src@, cursor as int),
            decreases src@.len() - start,
        {
            start = start + 1;
        }
        if start >= src.len() || start + 1 >= src.len() {
            push_range(&mut out, &src, cursor, src.len());
            return Ok(string_from_chars(&out));
        }
        proof {
            lemma_find_char_bounds(src@, start + 2, '}');
        }
        let end = match find_char(&src, start + 2, '}') {
            Some(e) => e,
            None => {
                push_range(&mut out, &src, cursor, src.len());
                return Ok(string_from_chars(&out));
            },
        };
        let key_chars = trim_range(&src, start + 2, end);
        let key = string_from_chars(&key_chars);
        let value = match locals.get(key.as_str()) {
            Some(v) => v,
            None => {
                return Err(ScriptLangError::UnknownMacroLocal(key, expr));
            },
        };
        let ghost before = out@;
        push_range(&mut out, &src, cursor, start);
        let ghost mid = out@;
        if !push_slot_text(&mut out, value, expr) {
            return Err(ScriptLangError::NotSpliceable(key, expr));
        }
        proof {
            match spec_splice_from(src@, end + 1, *locals, expr) {
                Ok(rest) => {
                    assert(before + (src@.subrange(cursor as int, start as int) + spec_slot_text(*value, expr)->0 + rest)
                        =~= out@ + rest);
                },
                Err(_) => {},
            }
        }
        cursor = end + 1;
    }
}

/// `source` with each `${name}` slot filled with the local `name`: a
/// string, boolean or integer local (never an expression).
pub fn splice_string_slots(source: &str, runtime: &MacroEnv) -> (r: Result<String, ScriptLangError>)
    requires
        runtime.locals.wf(),
    ensures
        match r {
            Ok(t) => spec_splice_from(source@, 0, runtime.locals, false) == Ok::<Seq<char>, ErrorView>(t@),
            Err(e) => spec_splice_from(source@, 0, runtime.locals, false) == Err::<Seq<char>, ErrorView>(e@),
        },
{
    splice_slots(source, &runtime.locals, false)
}

/// `source` with each `${name}` slot filled with the local `name`: an
/// expression, string, boolean or integer local.
pub fn splice_expr_slots(source: &str, runtime: &MacroEnv) -> (r: Result<String, ScriptLangError>)
    requires
        runtime.locals.wf(),
    ensures
        match r {
            Ok(t) => spec_splice_from(source@, 0, runtime.locals, true) == Ok::<Seq<char>, ErrorView>(t@),
            Err(e) => spec_splice_from(source@, 0, runtime.locals, true) == Err::<Seq<char>, ErrorView>(e@),
        },
{
    splice_slots(source, &runtime.locals, true)
}

/// The text items of `items` appended to `buf`, or `None` at a nested form.
pub open spec fn spec_raw_items(items: Seq<FormItem>, buf: Seq<char>) -> Option<Seq<char>>
    decreases items.len(),
{
    if items.len() == 0 {
        Some(buf)
    } else {
        match items[0] {
            FormItem::Text(t) => spec_raw_items(items.drop_first(), buf + t@),
            FormItem::Form(_) => None,
        }
    }
}

/// The text of every `children` sequence of `fields` appended to `buf`,
/// and whether one held text; `None` at a nested form.
pub open spec fn spec_raw_fields(fields: Seq<crate::form::FormField>, buf: Seq<char>, saw: bool) -> Option<(Seq<char>, bool)>
    decreases fields.len(),
{
    if fields.len() == 0 {
        Some((buf, saw))
    } else {
        match fields[0].value {
            FormValue::Sequence(items) => if fields[0].name@ == "children"@ {
                match spec_raw_items(items@, buf) {
                    None => None,
                    Some(b) => spec_raw_fields(fields.drop_first(), b, saw || items@.len() > 0),
                }
            } else {
                spec_raw_fields(fields.drop_first(), buf, saw)
            },
            FormValue::String(_) => spec_raw_fields(fields.drop_first(), buf, saw),
        }
    }
}

/// The trimmed text a form's children hold, when they hold text and no
/// nested form.
pub open spec fn spec_raw_body_text(form: Form) -> Option<Seq<char>> {
    match spec_raw_fields(form.fields@, Seq::empty(), false) {
        Some((b, true)) => Some(spec_trim(b)),
        _ => None,
    }
}

/// The trimmed text of a form's children; `None` when they hold no text or
/// hold a nested form.
pub fn raw_body_text(form: &Form) -> (r: Option<String>)
    ensures
        match r {
            Some(t) => spec_raw_body_text(*form) == Some(t@),
            None => spec_raw_body_text(*form) is None,
        },
{
    proof {
        reveal_strlit("children");
    }
    let mut buffer: Vec<char> = Vec::new();
    let mut saw_text = false;
    let mut i: usize = 0;
    let ghost target = spec_raw_fields(form.fields@, Seq::empty(), false);
    assert(form.fields@.skip(0) =~= form.fields@);
    while i < form.fields.len()
        invariant
            i <= form.fields@.len(),
            target == spec_raw_fields(form.fields@, Seq::empty(), false),
            spec_raw_fields(form.fields@.skip(i as int), buffer@, saw_text) == target,
        decreases form.fields@.len() - i,
    {
        let field = &form.fields[i];
        proof {
            assert(form.fields@.skip(i as int)[0] == form.fields@[i as int]);
            assert(form.fields@.skip(i as int).drop_first() =~= form.fields@.skip(i + 1));
        }
        match &field.value {
            FormValue::Sequence(items) => {
                if crate::classify::str_is(field.name.as_str(), "children") {
                    let ghost b0 = buffer@;
                    let mut j: usize = 0;
                    assert(items@.skip(0) =~= items@);
                    while j < items.len()
                        invariant
                            j <= items@.len(),
                            spec_raw_items(items@.skip(j as int), buffer@) == spec_raw_items(items@, b0),
                            i < form.fields@.len(),
                            form.fields@[i as int].value matches FormValue::Sequence(its) && its@ == items@,
                            form.fields@[i as int].name@ == "children"@,
                            form.fields@.skip(i as int)[0] == form.fields@[i as int],
                            target == spec_raw_fields(form.fields@, Seq::empty(), false),
                            spec_raw_fields(form.fields@.skip(i as int), b0, saw_text) == target,
                        decreases items@.len() - j,
                    {
                        proof {
                            assert(items@.skip(j as int)[0] == items@[j as int]);
                            assert(items@.skip(j as int).drop_first() =~= items@.skip(j + 1));
                        }
                        match &items[j] {
                            FormItem::Text(t) => {
                                push_all(&mut buffer, &chars_of(t.as_str()));
                            },
                            FormItem::Form(_) => {
                                return None;
                            },
                        }
                        j = j + 1;
                    }
                    proof {
                        assert(items@.skip(items@.len() as int) =~= Seq::<FormItem>::empty());
                    }
                    if items.len() > 0 {
                        saw_text = true;
                    }
                }
            },
            FormValue::String(_) => {},
        }
        i = i + 1;
    }
    proof {
        assert(form.fields@.skip(form.fields@.len() as int) =~= Seq::<crate::form::FormField>::empty());
    }
    if !saw_text {
        return None;
    }
    let t = trim_range(&buffer, 0, buffer.len());
    assert(buffer@.subrange(0, buffer@.len() as int) =~= buffer@);
    Some(string_from_chars(&t))
}

/// The local an `<unquote>` names: its body is the local's name.
pub open spec fn spec_eval_unquote(form: Form, locals: NameMap<MacroValue>) -> Result<MacroValue, ErrorView> {
    match spec_raw_body_text(form) {
        Some(name) => if name.len() == 0 {
            Err(spec_error_at(form, FormIssueView::UnquoteNeedsName))
        } else {
            match locals.spec_get(name) {
                Some(v) => Ok(v),
                None => Err(spec_error_at(form, FormIssueView::UnknownUnquoteLocal(name))),
            }
        },
        None => Err(spec_error_at(form, FormIssueView::UnquoteNeedsName)),
    }
}

/// The value of the local an `<unquote>` names.
pub fn eval_unquote<'a>(form: &Form, runtime: &'a MacroEnv) -> (r: Result<&'a MacroValue, ScriptLangError>)
    requires
        runtime.locals.wf(),
    ensures
        match r {
            Ok(v) => spec_eval_unquote(*form, runtime.locals) == Ok::<MacroValue, ErrorView>(*v),
            Err(e) => spec_eval_unquote(*form, runtime.locals) == Err::<MacroValue, ErrorView>(e@),
        },
{
    let name = match raw_body_text(form) {
        Some(n) => n,
        None => {
            return Err(error_at(form, FormIssue::UnquoteNeedsName));
        },
    };
    if chars_of(name.as_str()).len() == 0 {
        return Err(error_at(form, FormIssue::UnquoteNeedsName));
    }
    match runtime.locals.get(name.as_str()) {
        Some(v) => Ok(v),
        None => Err(error_at(form, FormIssue::UnknownUnquoteLocal(name))),
    }
}

/// The text of a quoted expression's items: text as it stands, and each
/// `<unquote>` replaced by its scalar value.
pub open spec fn spec_quote_text(items: Seq<FormItem>, locals: NameMap<MacroValue>) -> Result<Seq<char>, ErrorView>
    decreases items.len(),
{
    if items.len() == 0 {
        Ok(Seq::empty())
    } else {
        let head = match items[0] {
            FormItem::Text(t) => Ok(t@),
            FormItem::Form(f) => if f.head@ == "unquote"@ {
                match spec_eval_unquote(f, locals) {
                    Err(e) => Err(e),
                    Ok(v) => match spec_slot_text(v, true) {
                        Some(t) => Ok(t),
                        None => Err(spec_error_at(f, FormIssueView::UnquoteNotScalar)),
                    },
                }
            } else {
                Err(spec_error_at(f, FormIssueView::ExprQuoteSlot))
            },
        };
        match head {
            Err(e) => Err(e),
            Ok(t) => match spec_quote_text(items.drop_first(), locals) {
                Ok(rest) => Ok(t + rest),
                Err(e) => Err(e),
            },
        }
    }
}

/// A quoted expression: its text with unquotes filled in, and the macro's
/// temporaries renamed to their fresh names.
pub fn quote_expr(items: &Vec<FormItem>, runtime: &MacroEnv, renames: &NameMap<String>) -> (r: Result<String, ScriptLangError>)
    requires
        runtime.locals.wf(),
        renames.wf(),
    ensures
        match spec_quote_text(items@, runtime.locals) {
            Err(e) => r matches Err(x) && x@ == e,
            Ok(t) => match spec_rewrite_expr_idents(t, *renames) {
                Ok(out) => r matches Ok(x) && x@ == out,
                Err(e) => r == Err::<String, ScriptLangError>(e),
            },
        },
{
    proof {
        reveal_strlit("unquote");
    }
    let mut expr: Vec<char> = Vec::new();
    let mut i: usize = 0;
    let ghost target = spec_quote_text(items@, runtime.locals);
    assert(items@.skip(0) =~= items@);
    while i < items.len()
        invariant
            runtime.locals.wf(),
            i <= items@.len(),
            target == spec_quote_text(items@, runtime.locals),
            match spec_quote_text(items@.skip(i as int), runtime.locals) {
                Ok(rest) => target == Ok::<Seq<char>, ErrorView>(expr@ + rest),
                Err(e) => target == Err::<Seq<char>, ErrorView>(e),
            },
        decreases items@.len() - i,
    {
        proof {
            assert(items@.skip(i as int)[0] == items@[i as int]);
            assert(items@.skip(i as int).drop_first() =~= items@.skip(i + 1));
        }
        let ghost before = expr@;
        let ghost mut piece: Seq<char> = Seq::empty();
        match &items[i] {
            FormItem::Text(t) => {
                push_all(&mut expr, &chars_of(t.as_str()));
                proof {
                    piece = t@;
                }
            },
            FormItem::Form(f) => {
                if !crate::classify::str_is(f.head.as_str(), "unquote") {
                    return Err(error_at(f, FormIssue::ExprQuoteSlot));
                }
                let v = match eval_unquote(f, runtime) {
                    Ok(v) => v,
                    Err(e) => {
                        return Err(e);
                    },
                };
                if !push_slot_text(&mut expr, v, true) {
                    return Err(error_at(f, FormIssue::UnquoteNotScalar));
                }
                proof {
                    piece = spec_slot_text(*v, true)->0;
                }
            },
        }
        proof {
            assert(expr@ == before + piece);
            assert(spec_quote_text(items@.skip(i as int), runtime.locals) == match spec_quote_text(items@.skip(i + 1), runtime.locals) {
                Ok(rest) => Ok::<Seq<char>, ErrorView>(piece + rest),
                Err(e) => Err(e),
            });
            match spec_quote_text(items@.skip(i + 1), runtime.locals) {
                Ok(rest) => {
                    assert(before + (piece + rest) =~= expr@ + rest);
                },
                Err(_) => {},
            }
        }
        i = i + 1;
    }
    proof {
        assert(items@.skip(items@.len() as int) =~= Seq::<FormItem>::empty());
        assert(expr@ + Seq::<char>::empty() =~= expr@);
    }
    let text = string_from_chars(&expr);
    rewrite_expr_idents(text.as_str(), renames)
}

/// A macro name with each character other than an ASCII letter, digit or
/// `_` replaced by `_`.
pub open spec fn spec_sanitize_macro_name(s: Seq<char>) -> Seq<char> {
    s.map_values(|c: char| if crate::text::spec_is_ident_continue(c) { c } else { '_' })
}

/// The fresh name `gensym` gives `prefix`, as the `counter`-th of the
/// invocation numbered `seed` of macro `name`.
pub open spec fn spec_gensym(name: Seq<char>, seed: nat, prefix: Seq<char>, counter: nat) -> Seq<char> {
    "__macro_"@ + spec_sanitize_macro_name(name) + "_"@ + spec_dec_digits(seed) + "_"@ + prefix + "_"@ + spec_dec_digits(counter)
}

/// A fresh name for `prefix`: the invocation's counter goes up by one and
/// numbers it.
pub fn gensym(runtime: &mut MacroEnv, prefix: &str) -> (r: String)
    requires
        old(runtime).gensym_counter < usize::MAX,
    ensures
        final(runtime).gensym_counter == old(runtime).gensym_counter + 1,
        final(runtime).gensym_seed == old(runtime).gensym_seed,
        final(runtime).macro_name == old(runtime).macro_name,
        final(runtime).locals == old(runtime).locals,
        r@ == spec_gensym(old(runtime).macro_name@, old(runtime).gensym_seed as nat, prefix@, (old(runtime).gensym_counter + 1) as nat),
{
    proof {
        reveal_strlit("__macro_");
        reveal_strlit("_");
    }
    runtime.gensym_counter = runtime.gensym_counter + 1;
    let name = chars_of(runtime.macro_name.as_str());
    let mut out: Vec<char> = chars_of("__macro_");
    let ghost start = out@;
    let mut i: usize = 0;
    while i < name.len()
        invariant
            i <= name@.len(),
            out@ == start + spec_sanitize_macro_name(name@).take(i as int),
        decreases name@.len() - i,
    {
        let c = name[i];
        let kept = if crate::text::is_ident_continue(c) { c } else { '_' };
        out.push(kept);
        proof {
            assert(spec_sanitize_macro_name(name@).take(i + 1) =~= spec_sanitize_macro_name(name@).take(i as int).push(kept));
        }
        i = i + 1;
    }
    assert(spec_sanitize_macro_name(name@).take(name@.len() as int) =~= spec_sanitize_macro_name(name@));
    out.push('_');
    push_all(&mut out, &dec_digits(runtime.gensym_seed as u64));
    out.push('_');
    push_all(&mut out, &chars_of(prefix));
    out.push('_');
    push_all(&mut out, &dec_digits(runtime.gensym_counter as u64));
    let r = string_from_chars(&out);
    assert(r@ =~= spec_gensym(old(runtime).macro_name@, old(runtime).gensym_seed as nat, prefix@, (old(runtime).gensym_counter + 1) as nat));
    r
}

} // verus!
