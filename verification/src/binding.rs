//! Binding a macro invocation: its attributes and children become the
//! locals of the macro's body, by the macro's declared parameters, by its
//! older attribute and content protocol, or as they are.
use vstd::prelude::*;
use crate::classify::str_is;
use crate::collections::NameMap;
use crate::env::{ExpandEnv, LegacyProtocol, MacroDefinition, MacroParam, spec_counter_key, copy_strings, copy_string_map, copy_opt_string};
use crate::errors::{ErrorView, ScriptLangError};
use crate::macros::{MacroParamType, convert_param_value, spec_convert_param, spec_param_value_matches};
use crate::form::{Form, FormField, FormItem, FormValue, ItemView, copy_form, copy_items, spec_item_deep, spec_items_deep};
use crate::macro_registry::spec_find_seq_field;
use crate::macros::MacroValue;
use crate::quote::MacroEnv;

verus! {

/// The invocation number `reserve_macro_invocation_seed` hands out next.
pub open spec fn spec_next_seed(env: ExpandEnv) -> int {
    match env.macro_invocation_counters.spec_get(spec_counter_key(env.module)) {
        Some(c) => c + 1,
        None => 1,
    }
}

/// Whether another invocation number can be handed out.
pub open spec fn spec_seed_available(env: ExpandEnv) -> bool {
    env.macro_invocation_counters.spec_get(spec_counter_key(env.module)) matches Some(c) ==> c < usize::MAX
}

/// `after` is `before` with the next invocation number handed out.
pub open spec fn spec_seed_reserved(before: ExpandEnv, after: ExpandEnv) -> bool {
    &&& after.wf()
    &&& after.macro_invocation_counters.spec_get(spec_counter_key(before.module)) == Some(spec_next_seed(before) as usize)
    &&& forall|k: Seq<char>| k != spec_counter_key(before.module) ==> after.macro_invocation_counters.spec_get(k)
        == before.macro_invocation_counters.spec_get(k)
    &&& after == (ExpandEnv { macro_invocation_counters: after.macro_invocation_counters, ..before })
}

/// `me` runs an invocation of `name` from the current module of `env`:
/// that module's name, imports, requires and aliases, the next invocation
/// number as its seed, and no fresh name drawn yet.
pub open spec fn spec_invocation_context(me: MacroEnv, env: ExpandEnv, name: Seq<char>) -> bool {
    &&& me.current_module == env.module.module_name
    &&& me.imports@ == env.module.imports@
    &&& me.requires@ == env.module.requires@
    &&& me.aliases.entries@ == env.module.aliases.entries@
    &&& me.macro_name@ == name
    &&& me.gensym_seed == spec_next_seed(env)
    &&& me.gensym_counter == 0
}

impl MacroEnv {
    /// The environment an invocation of `macro_name` runs with, taking the
    /// next invocation number of the current module as its seed.
    pub fn from_invocation(
        expand_env: &mut ExpandEnv,
        macro_name: &str,
        attributes: NameMap<String>,
        content: Vec<FormItem>,
    ) -> (r: MacroEnv)
        requires
            old(expand_env).wf(),
            spec_seed_available(*old(expand_env)),
        ensures
            spec_seed_reserved(*old(expand_env), *final(expand_env)),
            spec_invocation_context(r, *old(expand_env), macro_name@),
            r.attributes == attributes,
            r.content == content,
            r.locals.wf(),
            forall|k: Seq<char>| r.locals.spec_get(k) is None,
    {
        let gensym_seed = expand_env.reserve_macro_invocation_seed();
        MacroEnv {
            current_module: copy_opt_string(&expand_env.module.module_name),
            imports: copy_strings(&expand_env.module.imports),
            requires: copy_strings(&expand_env.module.requires),
            aliases: copy_string_map(&expand_env.module.aliases),
            macro_name: macro_name.to_string(),
            attributes,
            content,
            locals: NameMap::new(),
            gensym_seed,
            gensym_counter: 0,
        }
    }
}

/// The value the last field named `k` among the first `n` gives as an
/// invocation attribute: `children` and sequence fields give none.
pub open spec fn spec_invocation_attr(fields: Seq<FormField>, k: Seq<char>, n: int) -> Option<Seq<char>>
    decreases n,
{
    if n <= 0 || n > fields.len() {
        None
    } else if k != "children"@ && fields[n - 1].name@ == k && fields[n - 1].value is String {
        match fields[n - 1].value {
            FormValue::String(v) => Some(v@),
            FormValue::Sequence(_) => None,
        }
    } else {
        spec_invocation_attr(fields, k, n - 1)
    }
}

/// The text stored under `k`.
pub open spec fn spec_attr_value(attrs: NameMap<String>, k: Seq<char>) -> Option<Seq<char>> {
    match attrs.spec_get(k) {
        Some(v) => Some(v@),
        None => None,
    }
}

/// The attributes of an invocation: every string field but `children`, a
/// later field of one name replacing an earlier one.
pub fn extract_invocation_attributes(invocation: &Form) -> (r: Result<NameMap<String>, ScriptLangError>)
    ensures
        r matches Ok(attrs) && attrs.wf() && forall|k: Seq<char>| #[trigger] spec_attr_value(attrs, k)
            == spec_invocation_attr(invocation.fields@, k, invocation.fields@.len() as int),
{
    proof {
        reveal_strlit("children");
    }
    let mut attrs: NameMap<String> = NameMap::new();
    let mut i: usize = 0;
    while i < invocation.fields.len()
        invariant
            i <= invocation.fields@.len(),
            attrs.wf(),
            forall|k: Seq<char>| #[trigger] spec_attr_value(attrs, k) == spec_invocation_attr(invocation.fields@, k, i as int),
        decreases invocation.fields@.len() - i,
    {
        let field = &invocation.fields[i];
        if !str_is(field.name.as_str(), "children") {
            match &field.value {
                FormValue::String(value) => {
                    let ghost before = attrs;
                    attrs.insert(field.name.clone(), value.clone());
                    proof {
                        assert forall|k: Seq<char>| #[trigger] spec_attr_value(attrs, k) == spec_invocation_attr(
                            invocation.fields@,
                            k,
                            i + 1,
                        ) by {
                            if k != field.name@ {
                                assert(spec_attr_value(attrs, k) == spec_attr_value(before, k));
                            }
                        }
                    }
                },
                FormValue::Sequence(_) => {},
            }
        }
        i = i + 1;
    }
    Ok(attrs)
}

/// The children of an invocation: the items of its first `children`
/// sequence, or none.
pub fn extract_invocation_content(invocation: &Form) -> (r: Vec<FormItem>)
    ensures
        spec_items_deep(r@) == match spec_find_seq_field(invocation.fields@, "children"@, 0) {
            Some(items) => spec_items_deep(items),
            None => Seq::<ItemView>::empty(),
        },
{
    proof {
        reveal_strlit("children");
    }
    let mut i: usize = 0;
    while i < invocation.fields.len()
        invariant
            i <= invocation.fields@.len(),
            spec_find_seq_field(invocation.fields@, "children"@, i as int) == spec_find_seq_field(
                invocation.fields@,
                "children"@,
                0,
            ),
        decreases invocation.fields@.len() - i,
    {
        if str_is(invocation.fields[i].name.as_str(), "children") {
            match &invocation.fields[i].value {
                FormValue::Sequence(items) => {
                    return copy_items(items);
                },
                FormValue::String(_) => {},
            }
        }
        i = i + 1;
    }
    let r: Vec<FormItem> = Vec::new();
    assert(spec_items_deep(r@) =~= Seq::<ItemView>::empty());
    r
}

/// What a macro local is bound to, as a mathematical value.
pub enum BoundView {
    Nil,
    Text(Seq<char>),
    Ast(Seq<ItemView>),
    Converted((MacroParamType, Seq<char>, Option<int>)),
    Keyword(Seq<(Seq<char>, Seq<char>)>),
}

/// Whether the value is the binding `b` describes.
pub open spec fn spec_bound_matches(v: MacroValue, b: BoundView) -> bool {
    match b {
        BoundView::Nil => v is Nil,
        BoundView::Text(t) => v matches MacroValue::String(s) && s@ == t,
        BoundView::Ast(items) => v matches MacroValue::AstItems(xs) && spec_items_deep(xs@) == items,
        BoundView::Converted(x) => spec_param_value_matches(v, x),
        BoundView::Keyword(pairs) => v matches MacroValue::Keyword(kv) && kv@.len() == pairs.len() && forall|j: int|
            0 <= j < pairs.len() ==> ((#[trigger] kv@[j]).0@ == pairs[j].0 && (kv@[j].1 matches MacroValue::String(s)
                && s@ == pairs[j].1)),
    }
}

/// A parameter bound from an attribute: neither the children nor the
/// keyword list.
pub open spec fn spec_is_attr_param(t: MacroParamType) -> bool {
    !(t is Ast) && !(t is Keyword)
}

/// The error of the first attribute parameter from `i` on whose attribute
/// does not convert.
pub open spec fn spec_bind_error(params: Seq<MacroParam>, attrs: NameMap<String>, invocation: Form, i: int) -> Option<ErrorView>
    decreases params.len() - i,
{
    if i < 0 || i >= params.len() {
        None
    } else if spec_is_attr_param(params[i].param_type) && spec_convert_param(
        params[i].param_type,
        spec_attr_value(attrs, params[i].name@),
        params[i].name@,
        invocation,
    ) is Err {
        match spec_convert_param(params[i].param_type, spec_attr_value(attrs, params[i].name@), params[i].name@, invocation) {
            Err(e) => Some(e),
            Ok(_) => None,
        }
    } else {
        spec_bind_error(params, attrs, invocation, i + 1)
    }
}

/// The last of the first `n` parameters that binds `k` in the loop over
/// parameters (all but the keyword one).
pub open spec fn spec_last_bound(params: Seq<MacroParam>, k: Seq<char>, n: int) -> Option<int>
    decreases n,
{
    if n <= 0 || n > params.len() {
        None
    } else if params[n - 1].name@ == k && !(params[n - 1].param_type is Keyword) {
        Some(n - 1)
    } else {
        spec_last_bound(params, k, n - 1)
    }
}

/// What parameter `j` binds: the children for an `ast` parameter, else its
/// converted attribute.
pub open spec fn spec_binding_at(params: Seq<MacroParam>, attrs: NameMap<String>, content: Seq<FormItem>, invocation: Form, j: int) -> BoundView {
    if params[j].param_type is Ast {
        BoundView::Ast(spec_items_deep(content))
    } else {
        match spec_convert_param(params[j].param_type, spec_attr_value(attrs, params[j].name@), params[j].name@, invocation) {
            Ok(x) => BoundView::Converted(x),
            Err(_) => BoundView::Nil,
        }
    }
}

/// The first keyword parameter from `i` on.
pub open spec fn spec_first_keyword(params: Seq<MacroParam>, i: int) -> Option<int>
    decreases params.len() - i,
{
    if i < 0 || i >= params.len() {
        None
    } else if params[i].param_type is Keyword {
        Some(i)
    } else {
        spec_first_keyword(params, i + 1)
    }
}

/// Whether an attribute parameter is named `k`.
pub open spec fn spec_used_attr(params: Seq<MacroParam>, k: Seq<char>) -> bool {
    exists|j: int| 0 <= j < params.len() && #[trigger] params[j].name@ == k && spec_is_attr_param(params[j].param_type)
}

/// The keyword arguments among the first `n` attributes: each one no
/// attribute parameter takes, as its name and `name:value`.
pub open spec fn spec_keyword_pairs(entries: Seq<(String, String)>, params: Seq<MacroParam>, n: int) -> Seq<(Seq<char>, Seq<char>)>
    decreases n,
{
    if n <= 0 || n > entries.len() {
        Seq::empty()
    } else {
        let rest = spec_keyword_pairs(entries, params, n - 1);
        let e = entries[n - 1];
        if spec_used_attr(params, e.0@) {
            rest
        } else {
            rest.push((e.0@, e.0@ + ":"@ + e.1@))
        }
    }
}

/// The local `k` explicit parameters bind: the keyword list under the first
/// keyword parameter's name, else what the last parameter of that name
/// binds.
pub open spec fn spec_explicit_local(params: Seq<MacroParam>, attrs: NameMap<String>, content: Seq<FormItem>, invocation: Form, k: Seq<char>) -> Option<BoundView> {
    match spec_first_keyword(params, 0) {
        Some(q) if params[q].name@ == k => Some(
            BoundView::Keyword(spec_keyword_pairs(attrs.entries@, params, attrs.entries@.len() as int)),
        ),
        _ => match spec_last_bound(params, k, params.len() as int) {
            Some(j) => Some(spec_binding_at(params, attrs, content, invocation, j)),
            None => None,
        },
    }
}

/// Whether `locals` hold exactly the bindings explicit parameters make.
pub open spec fn spec_explicit_locals(locals: NameMap<MacroValue>, params: Seq<MacroParam>, attrs: NameMap<String>, content: Seq<FormItem>, invocation: Form) -> bool {
    &&& locals.wf()
    &&& forall|k: Seq<char>| match #[trigger] spec_explicit_local(params, attrs, content, invocation, k) {
        Some(b) => locals.spec_get(k) matches Some(v) && spec_bound_matches(v, b),
        None => locals.spec_get(k) is None,
    }
}

/// Whether the parameter type is the keyword list.
fn is_keyword(t: MacroParamType) -> (b: bool)
    ensures
        b == (t is Keyword),
{
    match t {
        MacroParamType::Keyword => true,
        _ => false,
    }
}

/// Whether an attribute parameter is named `name`.
fn is_used_attr(params: &Vec<MacroParam>, name: &str) -> (b: bool)
    ensures
        b == spec_used_attr(params@, name@),
{
    let mut i: usize = 0;
    while i < params.len()
        invariant
            i <= params@.len(),
            forall|j: int| 0 <= j < i ==> !(#[trigger] params@[j].name@ == name@ && spec_is_attr_param(params@[j].param_type)),
        decreases params@.len() - i,
    {
        let t = params[i].param_type;
        let regular = match t {
            MacroParamType::Ast | MacroParamType::Keyword => false,
            _ => true,
        };
        if regular && str_is(params[i].name.as_str(), name) {
            return true;
        }
        i = i + 1;
    }
    false
}

proof fn lemma_bind_error_skip(params: Seq<MacroParam>, attrs: NameMap<String>, invocation: Form, i: int)
    requires
        0 <= i < params.len(),
        !(spec_is_attr_param(params[i].param_type) && spec_convert_param(
            params[i].param_type,
            spec_attr_value(attrs, params[i].name@),
            params[i].name@,
            invocation,
        ) is Err),
    ensures
        spec_bind_error(params, attrs, invocation, i) == spec_bind_error(params, attrs, invocation, i + 1),
{
}

/// Binds an invocation by the macro's declared parameters: an `ast`
/// parameter to the children, the keyword parameter to the attributes no
/// other parameter takes, every other parameter to its attribute converted
/// to the parameter's type; the first attribute that is missing or does
/// not convert is an error.
pub fn bind_explicit_params(
    params: &Vec<MacroParam>,
    invocation_attrs: &NameMap<String>,
    invocation_content: &Vec<FormItem>,
    invocation: &Form,
    expand_env: &mut ExpandEnv,
) -> (r: Result<MacroEnv, ScriptLangError>)
    requires
        old(expand_env).wf(),
        spec_seed_available(*old(expand_env)),
        invocation_attrs.wf(),
    ensures
        spec_seed_reserved(*old(expand_env), *final(expand_env)),
        match r {
            Ok(me) => {
                &&& spec_bind_error(params@, *invocation_attrs, *invocation, 0) is None
                &&& spec_invocation_context(me, *old(expand_env), Seq::empty())
                &&& me.attributes.entries@.len() == 0
                &&& me.content@.len() == 0
                &&& spec_explicit_locals(me.locals, params@, *invocation_attrs, invocation_content@, *invocation)
            },
            Err(e) => spec_bind_error(params@, *invocation_attrs, *invocation, 0) == Some(e@),
        },
{
    let mut macro_env = MacroEnv::from_invocation(expand_env, "", NameMap::new(), Vec::new());
    proof {
        reveal_strlit("");
    }
    let ghost ps = params@;
    let ghost attrs = *invocation_attrs;
    let ghost content = invocation_content@;
    let ghost inv = *invocation;
    let ghost ctx = macro_env;
    assert(""@ =~= Seq::<char>::empty());
    assert(spec_invocation_context(ctx, *old(expand_env), Seq::empty()));
    let mut i: usize = 0;
    while i < params.len()
        invariant
            i <= ps.len(),
            spec_seed_reserved(*old(expand_env), *expand_env),
            spec_invocation_context(ctx, *old(expand_env), Seq::empty()),
            ctx.attributes.entries@.len() == 0,
            ctx.content@.len() == 0,
            attrs.wf(),
            ps == params@,
            attrs == *invocation_attrs,
            content == invocation_content@,
            inv == *invocation,
            macro_env.locals.wf(),
            macro_env == (MacroEnv { locals: macro_env.locals, ..ctx }),
            spec_bind_error(ps, attrs, inv, 0) == spec_bind_error(ps, attrs, inv, i as int),
            forall|k: Seq<char>| match #[trigger] spec_last_bound(ps, k, i as int) {
                Some(j) => macro_env.locals.spec_get(k) matches Some(v) && spec_bound_matches(
                    v,
                    spec_binding_at(ps, attrs, content, inv, j),
                ),
                None => macro_env.locals.spec_get(k) is None,
            },
        decreases ps.len() - i,
    {
        let param = &params[i];
        let ghost before = macro_env.locals;
        match param.param_type {
            MacroParamType::Keyword => {
                proof {
                    lemma_bind_error_skip(ps, attrs, inv, i as int);
                    assert forall|k: Seq<char>| #[trigger] spec_last_bound(ps, k, i + 1) == spec_last_bound(ps, k, i as int) by {}
                }
            },
            MacroParamType::Ast => {
                let items = copy_items(invocation_content);
                macro_env.locals.insert(param.name.clone(), MacroValue::AstItems(items));
                proof {
                    lemma_bind_error_skip(ps, attrs, inv, i as int);
                    assert forall|k: Seq<char>| match #[trigger] spec_last_bound(ps, k, i + 1) {
                        Some(j) => macro_env.locals.spec_get(k) matches Some(v) && spec_bound_matches(
                            v,
                            spec_binding_at(ps, attrs, content, inv, j),
                        ),
                        None => macro_env.locals.spec_get(k) is None,
                    } by {
                        if k != ps[i as int].name@ {
                            assert(macro_env.locals.spec_get(k) == before.spec_get(k));
                            assert(spec_last_bound(ps, k, i + 1) == spec_last_bound(ps, k, i as int));
                        }
                    }
                }
            },
            _ => {
                let value = match convert_param_value(
                    &param.param_type,
                    invocation_attrs.get(param.name.as_str()),
                    param.name.as_str(),
                    invocation,
                ) {
                    Ok(v) => v,
                    Err(e) => {
                        return Err(e);
                    },
                };
                macro_env.locals.insert(param.name.clone(), value);
                proof {
                    lemma_bind_error_skip(ps, attrs, inv, i as int);
                    assert forall|k: Seq<char>| match #[trigger] spec_last_bound(ps, k, i + 1) {
                        Some(j) => macro_env.locals.spec_get(k) matches Some(v) && spec_bound_matches(
                            v,
                            spec_binding_at(ps, attrs, content, inv, j),
                        ),
                        None => macro_env.locals.spec_get(k) is None,
                    } by {
                        if k != ps[i as int].name@ {
                            assert(macro_env.locals.spec_get(k) == before.spec_get(k));
                            assert(spec_last_bound(ps, k, i + 1) == spec_last_bound(ps, k, i as int));
                        }
                    }
                }
            },
        }
        i = i + 1;
    }
    let mut q: usize = 0;
    while q < params.len() && !is_keyword(params[q].param_type)
        invariant
            q <= ps.len(),
            ps == params@,
            spec_first_keyword(ps, 0) == spec_first_keyword(ps, q as int),
        decreases ps.len() - q,
    {
        q = q + 1;
    }
    if q < params.len() {
        let mut args: Vec<(String, MacroValue)> = Vec::new();
        let mut j: usize = 0;
        while j < invocation_attrs.entries.len()
            invariant
                j <= attrs.entries@.len(),
                attrs == *invocation_attrs,
                ps == params@,
                args@.len() == spec_keyword_pairs(attrs.entries@, ps, j as int).len(),
                forall|x: int| 0 <= x < args@.len() ==> ((#[trigger] args@[x]).0@ == spec_keyword_pairs(attrs.entries@, ps, j as int)[x].0
                    && (args@[x].1 matches MacroValue::String(s) && s@ == spec_keyword_pairs(attrs.entries@, ps, j as int)[x].1)),
            decreases attrs.entries@.len() - j,
        {
            let name = &invocation_attrs.entries[j].0;
            let value = &invocation_attrs.entries[j].1;
            if !is_used_attr(params, name.as_str()) {
                let mut text = crate::text::chars_of(name.as_str());
                text.push(':');
                crate::text::push_all(&mut text, &crate::text::chars_of(value.as_str()));
                proof {
                    reveal_strlit(":");
                }
                args.push((name.clone(), MacroValue::String(crate::text::string_from_chars(&text))));
            }
            j = j + 1;
        }
        let keyword_name = params[q].name.clone();
        let ghost before = macro_env.locals;
        assert(spec_first_keyword(ps, q as int) == Some(q as int));
        macro_env.locals.insert(keyword_name, MacroValue::Keyword(args));
        proof {
            assert forall|k: Seq<char>| match #[trigger] spec_explicit_local(ps, attrs, content, inv, k) {
                Some(b) => macro_env.locals.spec_get(k) matches Some(v) && spec_bound_matches(v, b),
                None => macro_env.locals.spec_get(k) is None,
            } by {
                if k != ps[q as int].name@ {
                    assert(macro_env.locals.spec_get(k) == before.spec_get(k));
                    assert(spec_last_bound(ps, k, ps.len() as int) == spec_last_bound(ps, k, i as int));
                }
            }
        }
    } else {
        proof {
            assert forall|k: Seq<char>| match #[trigger] spec_explicit_local(ps, attrs, content, inv, k) {
                Some(b) => macro_env.locals.spec_get(k) matches Some(v) && spec_bound_matches(v, b),
                None => macro_env.locals.spec_get(k) is None,
            } by {
                assert(spec_last_bound(ps, k, ps.len() as int) == spec_last_bound(ps, k, i as int));
            }
        }
    }
    Ok(macro_env)
}

/// The last of the first `n` attribute bindings of a legacy protocol that
/// binds local `k`.
pub open spec fn spec_legacy_last(attributes: Seq<(String, String, bool)>, k: Seq<char>, n: int) -> Option<int>
    decreases n,
{
    if n <= 0 || n > attributes.len() {
        None
    } else if attributes[n - 1].1@ == k {
        Some(n - 1)
    } else {
        spec_legacy_last(attributes, k, n - 1)
    }
}

/// The forms among the first `n` items whose head is `head`.
pub open spec fn spec_items_with_head(items: Seq<FormItem>, head: Seq<char>, n: int) -> Seq<FormItem>
    decreases n,
{
    if n <= 0 || n > items.len() {
        Seq::empty()
    } else {
        let rest = spec_items_with_head(items, head, n - 1);
        match items[n - 1] {
            FormItem::Form(f) => if f.head@ == head {
                rest.push(items[n - 1])
            } else {
                rest
            },
            FormItem::Text(_) => rest,
        }
    }
}

/// The children a legacy content binding takes: all of them, or only the
/// forms with the given head.
pub open spec fn spec_legacy_content(content: Seq<FormItem>, filter: Option<String>) -> Seq<FormItem> {
    match filter {
        Some(h) => spec_items_with_head(content, h@, content.len() as int),
        None => content,
    }
}

/// The local `k` a legacy protocol binds: the content local to the
/// (filtered) children, an attribute local to its attribute's text or nil.
pub open spec fn spec_legacy_local(legacy: LegacyProtocol, attrs: NameMap<String>, content: Seq<FormItem>, k: Seq<char>) -> Option<BoundView> {
    match legacy.content {
        Some((v, filter)) if v@ == k => Some(BoundView::Ast(spec_items_deep(spec_legacy_content(content, filter)))),
        _ => match spec_legacy_last(legacy.attributes@, k, legacy.attributes@.len() as int) {
            Some(j) => Some(
                match spec_attr_value(attrs, legacy.attributes@[j].0@) {
                    Some(t) => BoundView::Text(t),
                    None => BoundView::Nil,
                },
            ),
            None => None,
        },
    }
}

/// Whether `locals` hold exactly the bindings a legacy protocol makes.
pub open spec fn spec_legacy_locals(locals: NameMap<MacroValue>, legacy: LegacyProtocol, attrs: NameMap<String>, content: Seq<FormItem>) -> bool {
    &&& locals.wf()
    &&& forall|k: Seq<char>| match #[trigger] spec_legacy_local(legacy, attrs, content, k) {
        Some(b) => locals.spec_get(k) matches Some(v) && spec_bound_matches(v, b),
        None => locals.spec_get(k) is None,
    }
}

pub proof fn lemma_items_deep_push(s: Seq<FormItem>, x: FormItem)
    ensures
        spec_items_deep(s.push(x)) == spec_items_deep(s).push(spec_item_deep(x)),
{
    assert(s.push(x).drop_last() =~= s);
}

/// A copy of an item.
fn copy_item(item: &FormItem) -> (r: FormItem)
    ensures
        spec_item_deep(r) == spec_item_deep(*item),
{
    match item {
        FormItem::Text(t) => FormItem::Text(t.clone()),
        FormItem::Form(f) => FormItem::Form(copy_form(f)),
    }
}

/// Copies of the forms among `items` whose head is `head`.
fn items_with_head(items: &Vec<FormItem>, head: &str) -> (r: Vec<FormItem>)
    ensures
        spec_items_deep(r@) == spec_items_deep(spec_items_with_head(items@, head@, items@.len() as int)),
{
    let mut out: Vec<FormItem> = Vec::new();
    let mut i: usize = 0;
    while i < items.len()
        invariant
            i <= items@.len(),
            spec_items_deep(out@) == spec_items_deep(spec_items_with_head(items@, head@, i as int)),
        decreases items@.len() - i,
    {
        match &items[i] {
            FormItem::Form(f) => {
                if str_is(f.head.as_str(), head) {
                    let c = copy_item(&items[i]);
                    proof {
                        lemma_items_deep_push(out@, c);
                        lemma_items_deep_push(spec_items_with_head(items@, head@, i as int), items@[i as int]);
                    }
                    out.push(c);
                }
            },
            FormItem::Text(_) => {},
        }
        i = i + 1;
    }
    out
}

/// Binds an invocation by a legacy protocol: each attribute local to its
/// attribute's text, nil when the invocation lacks it; the content local to
/// the children, only those with the filter head when there is one. The
/// invocation's attributes and children stay in the environment.
pub fn bind_legacy_protocol(
    legacy: &LegacyProtocol,
    invocation_attrs: &NameMap<String>,
    invocation_content: &Vec<FormItem>,
    expand_env: &mut ExpandEnv,
) -> (r: MacroEnv)
    requires
        old(expand_env).wf(),
        spec_seed_available(*old(expand_env)),
        invocation_attrs.wf(),
    ensures
        spec_seed_reserved(*old(expand_env), *final(expand_env)),
        spec_invocation_context(r, *old(expand_env), Seq::empty()),
        r.attributes.entries@ == invocation_attrs.entries@,
        spec_items_deep(r.content@) == spec_items_deep(invocation_content@),
        spec_legacy_locals(r.locals, *legacy, *invocation_attrs, invocation_content@),
{
    let attrs_copy = copy_string_map(invocation_attrs);
    let content_copy = copy_items(invocation_content);
    let mut macro_env = MacroEnv::from_invocation(expand_env, "", attrs_copy, content_copy);
    proof {
        reveal_strlit("");
        assert(""@ =~= Seq::<char>::empty());
    }
    let ghost ctx = macro_env;
    let ghost la = legacy.attributes@;
    let mut i: usize = 0;
    while i < legacy.attributes.len()
        invariant
            i <= la.len(),
            la == legacy.attributes@,
            invocation_attrs.wf(),
            macro_env.locals.wf(),
            macro_env == (MacroEnv { locals: macro_env.locals, ..ctx }),
            forall|k: Seq<char>| match #[trigger] spec_legacy_last(la, k, i as int) {
                Some(j) => macro_env.locals.spec_get(k) matches Some(v) && spec_bound_matches(
                    v,
                    match spec_attr_value(*invocation_attrs, la[j].0@) {
                        Some(t) => BoundView::Text(t),
                        None => BoundView::Nil,
                    },
                ),
                None => macro_env.locals.spec_get(k) is None,
            },
        decreases la.len() - i,
    {
        let binding = &legacy.attributes[i];
        assert(*binding == la[i as int]);
        let value = match invocation_attrs.get(binding.0.as_str()) {
            Some(s) => MacroValue::String(s.clone()),
            None => MacroValue::Nil,
        };
        let ghost before = macro_env.locals;
        let ghost vv = value;
        assert(spec_bound_matches(vv, match spec_attr_value(*invocation_attrs, la[i as int].0@) {
            Some(t) => BoundView::Text(t),
            None => BoundView::Nil,
        }));
        macro_env.locals.insert(binding.1.clone(), value);
        proof {
            assert forall|k: Seq<char>| match #[trigger] spec_legacy_last(la, k, i + 1) {
                Some(j) => macro_env.locals.spec_get(k) matches Some(v) && spec_bound_matches(
                    v,
                    match spec_attr_value(*invocation_attrs, la[j].0@) {
                        Some(t) => BoundView::Text(t),
                        None => BoundView::Nil,
                    },
                ),
                None => macro_env.locals.spec_get(k) is None,
            } by {
                if k != la[i as int].1@ {
                    assert(macro_env.locals.spec_get(k) == before.spec_get(k));
                    assert(spec_legacy_last(la, k, i + 1) == spec_legacy_last(la, k, i as int));
                } else {
                    assert(spec_legacy_last(la, k, i + 1) == Some(i as int));
                    assert(macro_env.locals.spec_get(k) == Some(vv));
                }
            }
        }
        i = i + 1;
    }
    match &legacy.content {
        Some(binding) => {
            let items = match &binding.1 {
                Some(head) => items_with_head(invocation_content, head.as_str()),
                None => copy_items(invocation_content),
            };
            let ghost before = macro_env.locals;
            macro_env.locals.insert(binding.0.clone(), MacroValue::AstItems(items));
            proof {
                assert forall|k: Seq<char>| match #[trigger] spec_legacy_local(*legacy, *invocation_attrs, invocation_content@, k) {
                    Some(b) => macro_env.locals.spec_get(k) matches Some(v) && spec_bound_matches(v, b),
                    None => macro_env.locals.spec_get(k) is None,
                } by {
                    if k != binding.0@ {
                        assert(macro_env.locals.spec_get(k) == before.spec_get(k));
                    }
                }
            }
        },
        None => {},
    }
    macro_env
}

/// The children of an invocation: its first `children` sequence, or none.
pub open spec fn spec_invocation_content(invocation: Form) -> Seq<FormItem> {
    match spec_find_seq_field(invocation.fields@, "children"@, 0) {
        Some(items) => items,
        None => Seq::empty(),
    }
}

pub proof fn lemma_items_deep_index(s: Seq<FormItem>)
    ensures
        spec_items_deep(s).len() == s.len(),
        forall|i: int| 0 <= i < s.len() ==> #[trigger] spec_items_deep(s)[i] == spec_item_deep(s[i]),
    decreases s.len(),
{
    if s.len() > 0 {
        lemma_items_deep_index(s.drop_last());
    }
}

/// Keeping the forms of one head commutes with taking the items' values.
pub proof fn lemma_items_with_head_deep(a: Seq<FormItem>, b: Seq<FormItem>, h: Seq<char>, n: int)
    requires
        spec_items_deep(a) == spec_items_deep(b),
        0 <= n <= a.len(),
    ensures
        spec_items_deep(spec_items_with_head(a, h, n)) == spec_items_deep(spec_items_with_head(b, h, n)),
    decreases n,
{
    lemma_items_deep_index(a);
    lemma_items_deep_index(b);
    if n > 0 {
        lemma_items_with_head_deep(a, b, h, n - 1);
        assert(b.len() == a.len());
        assert(spec_items_deep(a)[n - 1] == spec_item_deep(a[n - 1]));
        assert(spec_items_deep(b)[n - 1] == spec_item_deep(b[n - 1]));
        assert(spec_item_deep(a[n - 1]) == spec_item_deep(b[n - 1]));
        let ra = spec_items_with_head(a, h, n - 1);
        let rb = spec_items_with_head(b, h, n - 1);
        lemma_items_deep_push(ra, a[n - 1]);
        lemma_items_deep_push(rb, b[n - 1]);
        match a[n - 1] {
            FormItem::Form(f) => {
                assert(spec_item_deep(a[n - 1]) == ItemView::Form(crate::form::spec_form_deep(f)));
                match b[n - 1] {
                    FormItem::Form(g) => {
                        assert(spec_item_deep(b[n - 1]) == ItemView::Form(crate::form::spec_form_deep(g)));
                        assert(f.head@ == crate::form::spec_form_deep(f).head);
                        assert(g.head@ == crate::form::spec_form_deep(g).head);
                    },
                    FormItem::Text(t) => {
                        assert(spec_item_deep(b[n - 1]) == ItemView::Text(t@));
                    },
                }
            },
            FormItem::Text(t) => {
                assert(spec_item_deep(a[n - 1]) == ItemView::Text(t@));
                match b[n - 1] {
                    FormItem::Form(g) => {
                        assert(spec_item_deep(b[n - 1]) == ItemView::Form(crate::form::spec_form_deep(g)));
                    },
                    FormItem::Text(_) => {},
                }
            },
        }
    }
}

/// Binds an invocation of `definition`: by its declared parameters when it
/// has them, else by its legacy protocol when it has one, else with the
/// invocation's attributes and children as they are and no locals.
pub fn bind_macro_params(definition: &MacroDefinition, invocation: &Form, expand_env: &mut ExpandEnv) -> (r: Result<MacroEnv, ScriptLangError>)
    requires
        old(expand_env).wf(),
        spec_seed_available(*old(expand_env)),
    ensures
        spec_seed_reserved(*old(expand_env), *final(expand_env)),
        exists|a: NameMap<String>| {
            &&& a.wf()
            &&& forall|k: Seq<char>| #[trigger] spec_attr_value(a, k) == spec_invocation_attr(
                invocation.fields@,
                k,
                invocation.fields@.len() as int,
            )
            &&& match definition.params {
                Some(ps) => match r {
                    Ok(me) => {
                        &&& spec_bind_error(ps@, a, *invocation, 0) is None
                        &&& spec_invocation_context(me, *old(expand_env), Seq::empty())
                        &&& spec_explicit_locals(me.locals, ps@, a, spec_invocation_content(*invocation), *invocation)
                    },
                    Err(e) => spec_bind_error(ps@, a, *invocation, 0) == Some(e@),
                },
                None => r matches Ok(me) && {
                    &&& me.attributes.entries@ == a.entries@
                    &&& spec_items_deep(me.content@) == spec_items_deep(spec_invocation_content(*invocation))
                    &&& match definition.legacy_protocol {
                        Some(l) => {
                            &&& spec_invocation_context(me, *old(expand_env), Seq::empty())
                            &&& spec_legacy_locals(me.locals, l, a, spec_invocation_content(*invocation))
                        },
                        None => {
                            &&& spec_invocation_context(me, *old(expand_env), definition.name@)
                            &&& me.locals.wf()
                            &&& forall|k: Seq<char>| me.locals.spec_get(k) is None
                        },
                    }
                },
            }
        },
{
    let invocation_attrs = match extract_invocation_attributes(invocation) {
        Ok(a) => a,
        Err(e) => {
            return Err(e);
        },
    };
    let invocation_content = extract_invocation_content(invocation);
    let ghost a = invocation_attrs;
    let ghost orig = spec_invocation_content(*invocation);
    proof {
        reveal_strlit("children");
        lemma_items_deep_index(invocation_content@);
        lemma_items_deep_index(orig);
    }
    match &definition.params {
        Some(params) => {
            let r = bind_explicit_params(params, &invocation_attrs, &invocation_content, invocation, expand_env);
            proof {
                let ghost rr = r;
                match rr {
                    Ok(me) => {
                        assert forall|k: Seq<char>| #[trigger] spec_explicit_local(params@, a, invocation_content@, *invocation, k)
                            == spec_explicit_local(params@, a, orig, *invocation, k) by {}
                        assert forall|k: Seq<char>| match #[trigger] spec_explicit_local(params@, a, orig, *invocation, k) {
                            Some(b) => me.locals.spec_get(k) matches Some(v) && spec_bound_matches(v, b),
                            None => me.locals.spec_get(k) is None,
                        } by {
                            assert(spec_explicit_local(params@, a, invocation_content@, *invocation, k)
                                == spec_explicit_local(params@, a, orig, *invocation, k));
                        }
                    },
                    Err(_) => {},
                }
            }
            r
        },
        None => match &definition.legacy_protocol {
            Some(legacy) => {
                let me = bind_legacy_protocol(legacy, &invocation_attrs, &invocation_content, expand_env);
                proof {
                    assert forall|k: Seq<char>| #[trigger] spec_legacy_local(*legacy, a, invocation_content@, k)
                        == spec_legacy_local(*legacy, a, orig, k) by {
                        match legacy.content {
                            Some((v, filter)) => {
                                match filter {
                                    Some(h) => {
                                        lemma_items_with_head_deep(invocation_content@, orig, h@, orig.len() as int);
                                    },
                                    None => {},
                                }
                            },
                            None => {},
                        }
                    }
                    assert forall|k: Seq<char>| match #[trigger] spec_legacy_local(*legacy, a, orig, k) {
                        Some(b) => me.locals.spec_get(k) matches Some(v) && spec_bound_matches(v, b),
                        None => me.locals.spec_get(k) is None,
                    } by {
                        assert(spec_legacy_local(*legacy, a, invocation_content@, k) == spec_legacy_local(*legacy, a, orig, k));
                    }
                }
                Ok(me)
            },
            None => {
                let me = MacroEnv::from_invocation(expand_env, definition.name.as_str(), invocation_attrs, invocation_content);
                Ok(me)
            },
        },
    }
}

} // verus!
