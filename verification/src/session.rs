//! The hidden module a runtime session starts from: one script that jumps
//! to the entry script the caller names, under a module name that user
//! modules may not take.
use vstd::prelude::*;
use crate::classify::{MetaView, spec_meta_view, str_is};
use crate::errors::{ErrorView, ScriptLangError};
use crate::form::{
    Form, FormField, FormItem, FormMeta, FormValue, FormView, ItemView, SourcePosition, ValueView, find_field,
    spec_find_field, spec_form_deep,
};
use crate::text::{chars_of, push_all, string_from_chars};
use crate::collections::NameMap;

verus! {

/// The module name reserved for the session entry.
pub open spec fn spec_session_module() -> Seq<char> {
    "__sl_api__"@
}

/// The session entry script's name.
pub open spec fn spec_session_script() -> Seq<char> {
    "__entry__"@
}

/// The qualified name of the session entry script.
pub open spec fn spec_session_script_ref() -> Seq<char> {
    "__sl_api__.__entry__"@
}

/// The qualified name of the session entry script, the default entry of a
/// session's compile.
pub fn session_script_ref() -> (r: String)
    ensures
        r@ == spec_session_script_ref(),
{
    string_from_chars(&chars_of("__sl_api__.__entry__"))
}

/// The location of the forms the session builds.
pub open spec fn spec_synthetic_meta() -> MetaView {
    MetaView {
        source_name: Some("<sl-api>"@),
        start: SourcePosition { row: 1, column: 1 },
        end: SourcePosition { row: 1, column: 1 },
        start_byte: 0,
        end_byte: 0,
    }
}

/// Where built forms are said to come from: `<sl-api>`, first row and
/// column, no bytes.
pub fn synthetic_meta() -> (m: FormMeta)
    ensures
        spec_meta_view(m) == spec_synthetic_meta(),
{
    FormMeta {
        source_name: Some(string_from_chars(&chars_of("<sl-api>"))),
        start: SourcePosition { row: 1, column: 1 },
        end: SourcePosition { row: 1, column: 1 },
        start_byte: 0,
        end_byte: 0,
    }
}

/// A form with the given head, attributes in order, then the children.
pub fn build_form(head: &str, attrs: Vec<(&str, String)>, children: Vec<FormItem>) -> (r: Form)
    ensures
        r.head@ == head@,
        spec_meta_view(r.meta) == spec_synthetic_meta(),
        r.fields@.len() == attrs@.len() + 1,
        forall|i: int| 0 <= i < attrs@.len() ==> (#[trigger] r.fields@[i]).name@ == attrs@[i].0@ && r.fields@[i].value
            == FormValue::String(attrs@[i].1),
        r.fields@[attrs@.len() as int].name@ == "children"@,
        r.fields@[attrs@.len() as int].value == FormValue::Sequence(children),
{
    let ghost a = attrs@;
    let n = attrs.len();
    let mut fields: Vec<FormField> = Vec::new();
    let mut rest = attrs;
    let mut i: usize = 0;
    while i < n
        invariant
            n == a.len(),
            i <= a.len(),
            fields@.len() == i,
            forall|j: int| 0 <= j < i ==> (#[trigger] fields@[j]).name@ == a[j].0@ && fields@[j].value == FormValue::String(
                a[j].1,
            ),
            rest@ == a.subrange(i as int, a.len() as int),
        decreases a.len() - i,
    {
        let (name, value) = rest.remove(0);
        assert(a.subrange(i as int, a.len() as int)[0] == a[i as int]);
        assert(rest@ =~= a.subrange(i + 1, a.len() as int));
        fields.push(FormField { name: name.to_string(), value: FormValue::String(value) });
        i = i + 1;
    }
    fields.push(FormField { name: string_from_chars(&chars_of("children")), value: FormValue::Sequence(children) });
    Form { head: head.to_string(), meta: synthetic_meta(), fields }
}

/// A built form's value: head, location, and fields.
pub open spec fn spec_built(head: Seq<char>, fields: Seq<(Seq<char>, ValueView)>) -> FormView {
    FormView { head, meta: spec_synthetic_meta(), fields }
}

/// The session module: `<module name="__sl_api__">` holding
/// `<script name="__entry__">` holding `<goto script="'entry'"/>`.
pub open spec fn spec_entry_session_module(entry: Seq<char>) -> FormView {
    let goto = spec_built(
        "goto"@,
        seq![("script"@, ValueView::String("'"@ + entry + "'"@)), ("children"@, ValueView::Sequence(Seq::empty()))],
    );
    let script = spec_built(
        "script"@,
        seq![
            ("name"@, ValueView::String(spec_session_script())),
            ("children"@, ValueView::Sequence(seq![ItemView::Form(goto)])),
        ],
    );
    spec_built(
        "module"@,
        seq![
            ("name"@, ValueView::String(spec_session_module())),
            ("children"@, ValueView::Sequence(seq![ItemView::Form(script)])),
        ],
    )
}

/// The value of a built form with one attribute.
proof fn lemma_built_one_attr(f: Form, name: Seq<char>, value: Seq<char>, items: Seq<ItemView>)
    requires
        spec_meta_view(f.meta) == spec_synthetic_meta(),
        f.fields@.len() == 2,
        f.fields@[0].name@ == name,
        f.fields@[0].value matches FormValue::String(v) && v@ == value,
        f.fields@[1].name@ == "children"@,
        f.fields@[1].value matches FormValue::Sequence(xs) && crate::form::spec_items_deep(xs@) == items,
    ensures
        spec_form_deep(f) == spec_built(
            f.head@,
            seq![(name, ValueView::String(value)), ("children"@, ValueView::Sequence(items))],
        ),
{
    let fs = f.fields@;
    assert(fs.drop_last().drop_last() =~= Seq::<FormField>::empty());
    assert(fs.drop_last().last() == fs[0]);
    assert(fs.last() == fs[1]);
    assert(crate::form::spec_fields_deep(fs.drop_last()) =~= seq![(name, ValueView::String(value))]);
    assert(crate::form::spec_fields_deep(fs) =~= seq![
        (name, ValueView::String(value)),
        ("children"@, ValueView::Sequence(items)),
    ]);
}

/// The value of a list of one form.
proof fn lemma_one_item(xs: Seq<FormItem>, f: Form)
    requires
        xs.len() == 1,
        xs[0] == FormItem::Form(f),
    ensures
        crate::form::spec_items_deep(xs) == seq![ItemView::Form(spec_form_deep(f))],
{
    assert(xs.drop_last() =~= Seq::<FormItem>::empty());
    assert(crate::form::spec_items_deep(xs.drop_last()) =~= Seq::<ItemView>::empty());
    assert(crate::form::spec_item_deep(xs.last()) == ItemView::Form(spec_form_deep(f)));
    assert(crate::form::spec_items_deep(xs) =~= seq![ItemView::Form(spec_form_deep(f))]);
}

/// The session module whose script jumps to `entry_script_ref`.
pub fn build_entry_session_module(entry_script_ref: &str) -> (r: Form)
    ensures
        spec_form_deep(r) == spec_entry_session_module(entry_script_ref@),
{
    let mut target = chars_of("'");
    push_all(&mut target, &chars_of(entry_script_ref));
    target.push('\'');
    proof {
        reveal_strlit("'");
        assert(target@ =~= "'"@ + entry_script_ref@ + "'"@);
    }
    let goto = build_form("goto", vec![("script", string_from_chars(&target))], Vec::new());
    let script = build_form("script", vec![("name", string_from_chars(&chars_of("__entry__")))], vec![FormItem::Form(goto)]);
    let ghost script_v = script;
    let module_children = vec![FormItem::Form(script)];
    assert(module_children@ =~= seq![FormItem::Form(script_v)]);
    let module = build_form("module", vec![("name", string_from_chars(&chars_of("__sl_api__")))], module_children);
    proof {
        reveal_strlit("goto");
        reveal_strlit("script");
        reveal_strlit("module");
        reveal_strlit("name");
        reveal_strlit("children");
        let empty: Seq<FormItem> = Seq::empty();
        assert(crate::form::spec_items_deep(empty) =~= Seq::<ItemView>::empty());
        lemma_built_one_attr(goto, "script"@, "'"@ + entry_script_ref@ + "'"@, Seq::empty());
        let gi: Seq<FormItem> = seq![FormItem::Form(goto)];
        lemma_one_item(gi, goto);
        lemma_built_one_attr(script_v, "name"@, spec_session_script(), seq![ItemView::Form(spec_form_deep(goto))]);
        let si: Seq<FormItem> = seq![FormItem::Form(script_v)];
        lemma_one_item(si, script_v);
        lemma_built_one_attr(module, "name"@, spec_session_module(), seq![ItemView::Form(spec_form_deep(script_v))]);
    }
    module
}

/// The `name` of a module form: its first field so named, which must be
/// text.
pub open spec fn spec_module_name(form: Form) -> Result<Seq<char>, ErrorView> {
    match spec_find_field(form.fields@, "name"@, 0) {
        Some(k) => match form.fields@[k].value {
            FormValue::String(v) => Ok(v@),
            FormValue::Sequence(_) => Err(ErrorView::ModuleNameNotString),
        },
        None => Err(ErrorView::ModuleNameMissing),
    }
}

/// The `name` of a module form.
pub fn module_name(form: &Form) -> (r: Result<&str, ScriptLangError>)
    ensures
        match r {
            Ok(n) => spec_module_name(*form) == Ok::<Seq<char>, ErrorView>(n@),
            Err(e) => spec_module_name(*form) == Err::<Seq<char>, ErrorView>(e@),
        },
{
    proof {
        reveal_strlit("name");
    }
    match find_field(form, "name") {
        Some(k) => match &form.fields[k].value {
            FormValue::String(v) => Ok(v.as_str()),
            FormValue::Sequence(_) => Err(ScriptLangError::ModuleNameNotString),
        },
        None => Err(ScriptLangError::ModuleNameMissing),
    }
}

/// Whether a form is a module that takes the reserved session name.
pub open spec fn spec_is_reserved_module(form: Form) -> bool {
    form.head@ == "module"@ && spec_module_name(form) == Ok::<Seq<char>, ErrorView>(spec_session_module())
}

/// Refuses a program in which a module takes the reserved session name.
pub fn reject_reserved_session_module(forms: &[Form]) -> (r: Result<(), ScriptLangError>)
    ensures
        r is Ok <==> forall|i: int| 0 <= i < forms@.len() ==> !spec_is_reserved_module(#[trigger] forms@[i]),
        r matches Err(e) ==> e@ == ErrorView::ReservedSessionModule(spec_session_module()),
{
    proof {
        reveal_strlit("module");
        reveal_strlit("__sl_api__");
    }
    let mut i: usize = 0;
    while i < forms.len()
        invariant
            i <= forms@.len(),
            forall|j: int| 0 <= j < i ==> !spec_is_reserved_module(#[trigger] forms@[j]),
        decreases forms@.len() - i,
    {
        let form = &forms[i];
        if str_is(form.head.as_str(), "module") {
            match module_name(form) {
                Ok(name) => {
                    if str_is(name, "__sl_api__") {
                        return Err(ScriptLangError::ReservedSessionModule(string_from_chars(&chars_of("__sl_api__"))));
                    }
                },
                Err(_) => {},
            }
        }
        i = i + 1;
    }
    Ok(())
}

/// The text the last of the first `n` bundled sources named `k` holds.
pub open spec fn spec_bundled_source(bundled: Seq<(String, String)>, k: Seq<char>, n: int) -> Option<String>
    decreases n,
{
    if n <= 0 || n > bundled.len() {
        None
    } else if bundled[n - 1].0@ == k {
        Some(bundled[n - 1].1)
    } else {
        spec_bundled_source(bundled, k, n - 1)
    }
}

/// The sources a session compiles: the bundled library sources, with a user
/// source of the same name taking a bundled one's place.
pub fn merged_sources(user_sources: &NameMap<String>, bundled: &Vec<(String, String)>) -> (r: NameMap<String>)
    requires
        user_sources.wf(),
    ensures
        r.wf(),
        forall|k: Seq<char>| #[trigger] r.spec_get(k) == match user_sources.spec_get(k) {
            Some(v) => Some(v),
            None => spec_bundled_source(bundled@, k, bundled@.len() as int),
        },
{
    let mut sources: NameMap<String> = NameMap::new();
    let mut i: usize = 0;
    while i < bundled.len()
        invariant
            i <= bundled@.len(),
            sources.wf(),
            forall|k: Seq<char>| #[trigger] sources.spec_get(k) == spec_bundled_source(bundled@, k, i as int),
        decreases bundled@.len() - i,
    {
        let ghost before = sources;
        sources.insert(bundled[i].0.clone(), bundled[i].1.clone());
        proof {
            assert forall|k: Seq<char>| #[trigger] sources.spec_get(k) == spec_bundled_source(bundled@, k, i + 1) by {
                if k != bundled@[i as int].0@ {
                    assert(sources.spec_get(k) == before.spec_get(k));
                }
            }
        }
        i = i + 1;
    }
    let ghost base = sources;
    let mut j: usize = 0;
    while j < user_sources.entries.len()
        invariant
            j <= user_sources.entries@.len(),
            user_sources.wf(),
            sources.wf(),
            forall|k: Seq<char>| #[trigger] sources.spec_get(k) == if exists|x: int| 0 <= x < j && #[trigger] user_sources.entries@[x].0@ == k {
                user_sources.spec_get(k)
            } else {
                base.spec_get(k)
            },
            forall|k: Seq<char>| #[trigger] base.spec_get(k) == spec_bundled_source(bundled@, k, bundled@.len() as int),
        decreases user_sources.entries@.len() - j,
    {
        let ghost before = sources;
        let ghost kj = user_sources.entries@[j as int].0@;
        proof {
            user_sources.lemma_get_at(j as int);
        }
        sources.insert(user_sources.entries[j].0.clone(), user_sources.entries[j].1.clone());
        proof {
            assert forall|k: Seq<char>| #[trigger] sources.spec_get(k) == if exists|x: int| 0 <= x < j + 1 && #[trigger] user_sources.entries@[x].0@ == k {
                user_sources.spec_get(k)
            } else {
                base.spec_get(k)
            } by {
                if k != kj {
                    assert(sources.spec_get(k) == before.spec_get(k));
                    if exists|x: int| 0 <= x < j + 1 && #[trigger] user_sources.entries@[x].0@ == k {
                        let x = choose|x: int| 0 <= x < j + 1 && #[trigger] user_sources.entries@[x].0@ == k;
                        assert(x < j);
                    }
                } else {
                    assert(user_sources.entries@[j as int].0@ == k);
                }
            }
        }
        j = j + 1;
    }
    proof {
        assert forall|k: Seq<char>| #[trigger] sources.spec_get(k) == match user_sources.spec_get(k) {
            Some(v) => Some(v),
            None => spec_bundled_source(bundled@, k, bundled@.len() as int),
        } by {
            if user_sources.spec_contains(k) {
                let x = user_sources.spec_index_of(k);
                assert(user_sources.entries@[x].0@ == k);
            } else {
                if exists|x: int| 0 <= x < j && #[trigger] user_sources.entries@[x].0@ == k {
                    let x = choose|x: int| 0 <= x < j && #[trigger] user_sources.entries@[x].0@ == k;
                    assert(user_sources.spec_contains(k));
                }
            }
        }
    }
    sources
}

} // verus!
