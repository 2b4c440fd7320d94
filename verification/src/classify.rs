//! What kind of text each attribute and body of a form holds, and other
//! per-form-head facts.
use vstd::prelude::*;
use crate::collections::compare_names;
use crate::errors::{ErrorView, FormIssue, FormIssueView, ScriptLangError};
use crate::form::{
    error_at, is_blank, join_text_items, spec_error_at, spec_is_blank, spec_join_text, Form,
    FormField, FormItem, FormMeta, FormValue, SourcePosition,
};
use crate::text::{chars_of, push_all, spec_trim, string_from_chars, trim_range};

verus! {

/// Whether `a` is the text `b`.
pub fn str_is(a: &str, b: &str) -> (r: bool)
    ensures
        r == (a@ == b@),
{
    compare_names(a, b) == 0
}

/// What an attribute holds.
#[derive(Clone, Copy, Debug, PartialEq, Eq)]
pub enum SlotKind {
    Ident,
    Expr,
    Template,
    PlainText,
}

/// What a form's body holds.
#[derive(Clone, Copy, Debug, PartialEq, Eq)]
pub enum BodyKind {
    Expr,
    Template,
    Statements,
}

/// The kind of the attribute `name` of a `head` form: names and types are
/// identifiers, `if.when` and `goto.script` are expressions, the `text` of
/// choices and options are templates, anything else is plain text.
pub open spec fn spec_attr_kind(head: Seq<char>, name: Seq<char>) -> SlotKind {
    if (head == "module"@ && name == "name"@) || (head == "import"@ && name == "name"@) || (head
        == "script"@ && name == "name"@) || (head == "var"@ && (name == "name"@ || name == "type"@))
        || (head == "temp"@ && (name == "name"@ || name == "type"@)) || (head == "const"@ && (name
        == "name"@ || name == "type"@)) {
        SlotKind::Ident
    } else if (head == "if"@ && name == "when"@) || (head == "goto"@ && name == "script"@) {
        SlotKind::Expr
    } else if (head == "choice"@ || head == "option"@) && name == "text"@ {
        SlotKind::Template
    } else {
        SlotKind::PlainText
    }
}

/// The kind of a `head` form's body: `var`, `temp`, `const` and `code` hold
/// an expression, `text` a template, the rest statements.
pub open spec fn spec_body_kind(head: Seq<char>) -> BodyKind {
    if head == "var"@ || head == "temp"@ || head == "const"@ || head == "code"@ {
        BodyKind::Expr
    } else if head == "text"@ {
        BodyKind::Template
    } else {
        BodyKind::Statements
    }
}

/// The kind of the attribute `name` of a `head` form.
pub fn attr_kind(head: &str, name: &str) -> (r: SlotKind)
    ensures
        r == spec_attr_kind(head@, name@),
{
    if (str_is(head, "module") && str_is(name, "name")) || (str_is(head, "import") && str_is(
        name,
        "name",
    )) || (str_is(head, "script") && str_is(name, "name")) || (str_is(head, "var") && (str_is(
        name,
        "name",
    ) || str_is(name, "type"))) || (str_is(head, "temp") && (str_is(name, "name") || str_is(
        name,
        "type",
    ))) || (str_is(head, "const") && (str_is(name, "name") || str_is(name, "type"))) {
        SlotKind::Ident
    } else if (str_is(head, "if") && str_is(name, "when")) || (str_is(head, "goto") && str_is(
        name,
        "script",
    )) {
        SlotKind::Expr
    } else if (str_is(head, "choice") || str_is(head, "option")) && str_is(name, "text") {
        SlotKind::Template
    } else {
        SlotKind::PlainText
    }
}

/// The kind of a `head` form's body.
pub fn body_kind(head: &str) -> (r: BodyKind)
    ensures
        r == spec_body_kind(head@),
{
    if str_is(head, "var") || str_is(head, "temp") || str_is(head, "const") || str_is(head, "code") {
        BodyKind::Expr
    } else if str_is(head, "text") {
        BodyKind::Template
    } else {
        BodyKind::Statements
    }
}

/// Whether a quoted `head` form's body is an expression.
pub fn is_expr_body_form(head: &str) -> (r: bool)
    ensures
        r == (head@ == "temp"@ || head@ == "var"@ || head@ == "const"@ || head@ == "code"@),
{
    str_is(head, "temp") || str_is(head, "var") || str_is(head, "const") || str_is(head, "code")
}

/// Whether a quoted form's attribute holds an expression: `while.when` and
/// `goto.script`.
pub fn is_expr_attr(head: &str, field_name: &str) -> (r: bool)
    ensures
        r == ((head@ == "while"@ && field_name@ == "when"@) || (head@ == "goto"@ && field_name@
            == "script"@)),
{
    (str_is(head, "while") && str_is(field_name, "when")) || (str_is(head, "goto") && str_is(
        field_name,
        "script",
    ))
}

/// The qualified script a `<goto>` target names: `@` is dropped; a name
/// without a module is taken from `module_name`.
pub open spec fn spec_resolve_script_ref(module_name: Seq<char>, raw: Seq<char>) -> Seq<char> {
    let r = if raw.len() > 0 && raw[0] == '@' {
        raw.drop_first()
    } else {
        raw
    };
    if r.contains('.') {
        r
    } else {
        module_name + seq!['.'] + r
    }
}

/// The qualified script a `<goto>` target names.
pub fn resolve_script_ref(module_name: &str, raw: &str) -> (r: String)
    ensures
        r@ == spec_resolve_script_ref(module_name@, raw@),
{
    let chars = chars_of(raw);
    let start: usize = if chars.len() > 0 && chars[0] == '@' {
        1
    } else {
        0
    };
    let mut rest: Vec<char> = Vec::new();
    crate::text::push_range(&mut rest, &chars, start, chars.len());
    assert(start == 1 ==> rest@ =~= raw@.drop_first());
    assert(start == 0 ==> rest@ =~= raw@);
    let mut i: usize = 0;
    let mut has_dot = false;
    while i < rest.len()
        invariant
            i <= rest@.len(),
            has_dot == exists|j: int| 0 <= j < i && rest@[j] == '.',
        decreases rest@.len() - i,
    {
        if rest[i] == '.' {
            has_dot = true;
        }
        i = i + 1;
    }
    if has_dot {
        string_from_chars(&rest)
    } else {
        let mut out = chars_of(module_name);
        out.push('.');
        push_all(&mut out, &rest);
        string_from_chars(&out)
    }
}

/// An attribute with the kind of text it holds.
#[derive(Debug, PartialEq, Eq)]
pub struct ClassifiedAttr {
    pub name: String,
    pub value: String,
    pub kind: SlotKind,
}

/// A body sorted by what it holds.
#[derive(Debug, PartialEq, Eq)]
pub enum ClassifiedBody {
    Statements(Vec<ClassifiedForm>),
    Expr(String),
    Template(String),
}

/// A form whose attributes and body are sorted by kind.
#[derive(Debug, PartialEq, Eq)]
pub struct ClassifiedForm {
    pub head: String,
    pub meta: FormMeta,
    pub attrs: Vec<ClassifiedAttr>,
    pub body: ClassifiedBody,
}

/// The mathematical value of a form's position data.
pub struct MetaView {
    pub source_name: Option<Seq<char>>,
    pub start: SourcePosition,
    pub end: SourcePosition,
    pub start_byte: usize,
    pub end_byte: usize,
}

pub open spec fn spec_meta_view(m: FormMeta) -> MetaView {
    MetaView {
        source_name: match m.source_name {
            Some(n) => Some(n@),
            None => None,
        },
        start: m.start,
        end: m.end,
        start_byte: m.start_byte,
        end_byte: m.end_byte,
    }
}

/// The mathematical value of a classified body.
pub enum BodyView {
    Statements(Seq<ClassifiedView>),
    Expr(Seq<char>),
    Template(Seq<char>),
}

/// The mathematical value of a classified form.
pub struct ClassifiedView {
    pub head: Seq<char>,
    pub meta: MetaView,
    pub attrs: Seq<(Seq<char>, Seq<char>, SlotKind)>,
    pub body: BodyView,
}

pub open spec fn spec_cviews(forms: Seq<ClassifiedForm>) -> Seq<ClassifiedView>
    decreases forms,
{
    if forms.len() == 0 {
        Seq::empty()
    } else {
        spec_cviews(forms.drop_last()).push(spec_cview(forms.last()))
    }
}

pub open spec fn spec_cview(c: ClassifiedForm) -> ClassifiedView
    decreases c,
{
    ClassifiedView {
        head: c.head@,
        meta: spec_meta_view(c.meta),
        attrs: c.attrs@.map_values(|a: ClassifiedAttr| (a.name@, a.value@, a.kind)),
        body: match c.body {
            ClassifiedBody::Statements(children) => BodyView::Statements(spec_cviews(children@)),
            ClassifiedBody::Expr(t) => BodyView::Expr(t@),
            ClassifiedBody::Template(t) => BodyView::Template(t@),
        },
    }
}

impl View for ClassifiedForm {
    type V = ClassifiedView;

    open spec fn view(&self) -> ClassifiedView {
        spec_cview(*self)
    }
}

/// Index of the first `children` field at or after `i` whose value is a
/// sequence.
pub open spec fn spec_find_children_seq(fields: Seq<crate::form::FormField>, i: int) -> Option<int>
    decreases fields.len() - i,
{
    if i < 0 || i >= fields.len() {
        None
    } else if fields[i].name@ == "children"@ && fields[i].value is Sequence {
        Some(i)
    } else {
        spec_find_children_seq(fields, i + 1)
    }
}

pub proof fn lemma_find_children_seq(fields: Seq<crate::form::FormField>, i: int)
    requires
        0 <= i,
    ensures
        spec_find_children_seq(fields, i) matches Some(k) ==> i <= k < fields.len()
            && fields[k].value is Sequence,
    decreases fields.len() - i,
{
    if i < fields.len() && !(fields[i].name@ == "children"@ && fields[i].value is Sequence) {
        lemma_find_children_seq(fields, i + 1);
    }
}

/// The attributes of `fields[i..]`: the fields holding text, each with its
/// kind for a `head` form.
pub open spec fn spec_class_attrs(head: Seq<char>, fields: Seq<crate::form::FormField>, i: int) -> Seq<(Seq<char>, Seq<char>, SlotKind)>
    decreases fields.len() - i,
{
    if i < 0 || i >= fields.len() {
        Seq::empty()
    } else {
        match fields[i].value {
            FormValue::String(v) => seq![(fields[i].name@, v@, spec_attr_kind(head, fields[i].name@))]
                + spec_class_attrs(head, fields, i + 1),
            FormValue::Sequence(_) => spec_class_attrs(head, fields, i + 1),
        }
    }
}

/// A form classified: its attributes by kind, and its body read as its head
/// says (statements, an expression or a template).
pub open spec fn spec_classify_form(f: Form) -> Result<ClassifiedView, ErrorView>
    decreases f, 1nat,
{
    match spec_classify_body(f, spec_body_kind(f.head@)) {
        Ok(b) => Ok(
            ClassifiedView {
                head: f.head@,
                meta: spec_meta_view(f.meta),
                attrs: spec_class_attrs(f.head@, f.fields@, 0),
                body: b,
            },
        ),
        Err(e) => Err(e),
    }
}

/// A form's body read as `kind`: the items of its first `children`
/// sequence (a form without one is an error), classified as statements, or
/// their text joined and trimmed as an expression or a template.
pub open spec fn spec_classify_body(f: Form, kind: BodyKind) -> Result<BodyView, ErrorView>
    decreases f, 0nat,
{
    match spec_find_children_seq(f.fields@, 0) {
        None => Err(spec_error_at(f, FormIssueView::MissingChildren(f.head@))),
        Some(k) => {
            proof {
                lemma_find_children_seq(f.fields@, 0);
            }
            let items = f.fields@[k].value->Sequence_0@;
            match kind {
                BodyKind::Statements => match spec_classify_items(items, 0, f) {
                    Ok(children) => Ok(BodyView::Statements(children)),
                    Err(e) => Err(e),
                },
                BodyKind::Expr => match spec_join_text(items, f.head@, 0) {
                    Ok(t) => Ok(BodyView::Expr(spec_trim(t))),
                    Err(e) => Err(e),
                },
                BodyKind::Template => match spec_join_text(items, f.head@, 0) {
                    Ok(t) => Ok(BodyView::Template(spec_trim(t))),
                    Err(e) => Err(e),
                },
            }
        },
    }
}

/// The statement forms of `items[i..]` classified; blank text is skipped,
/// other text is an error of `owner`.
pub open spec fn spec_classify_items(items: Seq<FormItem>, i: int, owner: Form) -> Result<Seq<ClassifiedView>, ErrorView>
    decreases items, items.len() - i,
{
    if i < 0 || i >= items.len() {
        Ok(Seq::empty())
    } else {
        match items[i] {
            FormItem::Form(child) => match spec_classify_form(child) {
                Ok(c) => match spec_classify_items(items, i + 1, owner) {
                    Ok(rest) => Ok(seq![c] + rest),
                    Err(e) => Err(e),
                },
                Err(e) => Err(e),
            },
            FormItem::Text(t) => if spec_is_blank(t@) {
                spec_classify_items(items, i + 1, owner)
            } else {
                Err(spec_error_at(owner, FormIssueView::TextItemsUnsupported(owner.head@)))
            },
        }
    }
}

/// A copy of a form's position data.
pub fn copy_meta(m: &FormMeta) -> (r: FormMeta)
    ensures
        spec_meta_view(r) == spec_meta_view(*m),
{
    let source_name = match &m.source_name {
        Some(n) => Some(n.clone()),
        None => None,
    };
    FormMeta { source_name, start: m.start, end: m.end, start_byte: m.start_byte, end_byte: m.end_byte }
}

/// The attributes of a form, each with its kind.
fn classify_attrs(form: &Form) -> (r: Vec<ClassifiedAttr>)
    ensures
        r@.map_values(|a: ClassifiedAttr| (a.name@, a.value@, a.kind)) == spec_class_attrs(form.head@, form.fields@, 0),
{
    let mut out: Vec<ClassifiedAttr> = Vec::new();
    let mut i: usize = 0;
    while i < form.fields.len()
        invariant
            i <= form.fields@.len(),
            out@.map_values(|a: ClassifiedAttr| (a.name@, a.value@, a.kind)) + spec_class_attrs(form.head@, form.fields@, i as int)
                == spec_class_attrs(form.head@, form.fields@, 0),
        decreases form.fields@.len() - i,
    {
        let field = &form.fields[i];
        match &field.value {
            FormValue::String(v) => {
                let ghost old_view = out@.map_values(|a: ClassifiedAttr| (a.name@, a.value@, a.kind));
                let kind = attr_kind(form.head.as_str(), field.name.as_str());
                out.push(ClassifiedAttr { name: field.name.clone(), value: v.clone(), kind });
                proof {
                    let x = (field.name@, v@, kind);
                    assert(out@.map_values(|a: ClassifiedAttr| (a.name@, a.value@, a.kind)) =~= old_view.push(x));
                    assert(old_view.push(x) + spec_class_attrs(form.head@, form.fields@, i + 1) =~= old_view + (seq![x] + spec_class_attrs(form.head@, form.fields@, i + 1)));
                }
            },
            FormValue::Sequence(_) => {},
        }
        i = i + 1;
    }
    assert(out@.map_values(|a: ClassifiedAttr| (a.name@, a.value@, a.kind)) + Seq::<(Seq<char>, Seq<char>, SlotKind)>::empty()
        =~= out@.map_values(|a: ClassifiedAttr| (a.name@, a.value@, a.kind)));
    out
}

/// The index of the first `children` field that holds a sequence.
fn find_children_seq(form: &Form) -> (r: Option<usize>)
    ensures
        match r {
            Some(k) => spec_find_children_seq(form.fields@, 0) == Some(k as int) && k < form.fields@.len(),
            None => spec_find_children_seq(form.fields@, 0) is None,
        },
{
    let mut i: usize = 0;
    while i < form.fields.len()
        invariant
            i <= form.fields@.len(),
            spec_find_children_seq(form.fields@, i as int) == spec_find_children_seq(form.fields@, 0),
        decreases form.fields@.len() - i,
    {
        proof {
            reveal_strlit("children");
        }
        if str_is(form.fields[i].name.as_str(), "children") {
            match &form.fields[i].value {
                FormValue::Sequence(_) => {
                    return Some(i);
                },
                FormValue::String(_) => {},
            }
        }
        i = i + 1;
    }
    None
}

pub proof fn lemma_cviews_push(v: Seq<ClassifiedForm>, c: ClassifiedForm)
    ensures
        spec_cviews(v.push(c)) == spec_cviews(v).push(spec_cview(c)),
{
    assert(v.push(c).drop_last() =~= v);
}

/// The statement forms of `items` classified.
fn classify_items(items: &Vec<FormItem>, owner: &Form) -> (r: Result<Vec<ClassifiedForm>, ScriptLangError>)
    ensures
        match r {
            Ok(v) => spec_classify_items(items@, 0, *owner) == Ok::<Seq<ClassifiedView>, ErrorView>(spec_cviews(v@)),
            Err(e) => spec_classify_items(items@, 0, *owner) == Err::<Seq<ClassifiedView>, ErrorView>(e@),
        },
    decreases items@, 1nat,
{
    let mut children: Vec<ClassifiedForm> = Vec::new();
    let mut i: usize = 0;
    while i < items.len()
        invariant
            i <= items@.len(),
            match spec_classify_items(items@, i as int, *owner) {
                Ok(rest) => spec_classify_items(items@, 0, *owner) == Ok::<Seq<ClassifiedView>, ErrorView>(spec_cviews(children@) + rest),
                Err(e) => spec_classify_items(items@, 0, *owner) == Err::<Seq<ClassifiedView>, ErrorView>(e),
            },
        decreases items@.len() - i,
    {
        match &items[i] {
            FormItem::Form(child) => {
                proof {
                    assert(decreases_to!(items@ => items@[i as int]));
                }
                let c = match classify_form(child) {
                    Ok(c) => c,
                    Err(e) => {
                        return Err(e);
                    },
                };
                let ghost old_children = children@;
                let ghost cv = c@;
                children.push(c);
                proof {
                    lemma_cviews_push(old_children, c);
                    match spec_classify_items(items@, i + 1, *owner) {
                        Ok(rest) => {
                            assert(spec_cviews(children@) + rest =~= spec_cviews(old_children) + (seq![cv] + rest));
                        },
                        Err(e) => {},
                    }
                }
            },
            FormItem::Text(t) => {
                if !is_blank(t.as_str()) {
                    return Err(error_at(owner, FormIssue::TextItemsUnsupported(owner.head.clone())));
                }
            },
        }
        i = i + 1;
    }
    assert(spec_cviews(children@) + Seq::<ClassifiedView>::empty() =~= spec_cviews(children@));
    Ok(children)
}

/// A form classified: attributes by kind, and the body read as its head
/// says; a missing `children` sequence, text among statements, or a form
/// inside an expression or template body is an error.
pub fn classify_form(form: &Form) -> (r: Result<ClassifiedForm, ScriptLangError>)
    ensures
        match r {
            Ok(c) => spec_classify_form(*form) == Ok::<ClassifiedView, ErrorView>(c@),
            Err(e) => spec_classify_form(*form) == Err::<ClassifiedView, ErrorView>(e@),
        },
    decreases form, 1nat,
{
    let kind = body_kind(form.head.as_str());
    let attrs = classify_attrs(form);
    let body = match classify_body(form, kind) {
        Ok(b) => b,
        Err(e) => {
            return Err(e);
        },
    };
    let c = ClassifiedForm { head: form.head.clone(), meta: copy_meta(&form.meta), attrs, body };
    Ok(c)
}

/// The view of a classified body.
pub open spec fn spec_body_view(b: ClassifiedBody) -> BodyView {
    match b {
        ClassifiedBody::Statements(children) => BodyView::Statements(spec_cviews(children@)),
        ClassifiedBody::Expr(t) => BodyView::Expr(t@),
        ClassifiedBody::Template(t) => BodyView::Template(t@),
    }
}

/// The body of a form read as `kind` says.
fn classify_body(form: &Form, kind: BodyKind) -> (r: Result<ClassifiedBody, ScriptLangError>)
    ensures
        match r {
            Ok(b) => spec_classify_body(*form, kind) == Ok::<BodyView, ErrorView>(spec_body_view(b)),
            Err(e) => spec_classify_body(*form, kind) == Err::<BodyView, ErrorView>(e@),
        },
    decreases form, 0nat,
{
    let k = match find_children_seq(form) {
        Some(k) => k,
        None => {
            return Err(error_at(form, FormIssue::MissingChildren(form.head.clone())));
        },
    };
    proof {
        lemma_find_children_seq(form.fields@, 0);
    }
    let items = match &form.fields[k].value {
        FormValue::Sequence(items) => items,
        FormValue::String(_) => {
            return Err(error_at(form, FormIssue::MissingChildren(form.head.clone())));
        },
    };
    match kind {
        BodyKind::Statements => {
            proof {
                assert(decreases_to!(form => form.fields));
                assert(decreases_to!(form.fields => form.fields@));
                assert(decreases_to!(form.fields@ => form.fields@[k as int]));
                assert(decreases_to!(form.fields@[k as int] => form.fields@[k as int].value));
                assert(decreases_to!(form.fields@[k as int].value => *items));
            }
            match classify_items(items, form) {
                Ok(children) => Ok(ClassifiedBody::Statements(children)),
                Err(e) => Err(e),
            }
        },
        BodyKind::Expr => {
            let text = match join_text_items(items, form.head.as_str()) {
                Ok(t) => t,
                Err(e) => {
                    return Err(e);
                },
            };
            let trimmed = trim_range(&text, 0, text.len());
            assert(text@.subrange(0, text@.len() as int) =~= text@);
            Ok(ClassifiedBody::Expr(string_from_chars(&trimmed)))
        },
        BodyKind::Template => {
            let text = match join_text_items(items, form.head.as_str()) {
                Ok(t) => t,
                Err(e) => {
                    return Err(e);
                },
            };
            let trimmed = trim_range(&text, 0, text.len());
            assert(text@.subrange(0, text@.len() as int) =~= text@);
            Ok(ClassifiedBody::Template(string_from_chars(&trimmed)))
        },
    }
}

/// Each of the forms classified, in order; the first error stops.
pub fn classify_forms(forms: &Vec<Form>) -> (r: Result<Vec<ClassifiedForm>, ScriptLangError>)
    ensures
        match r {
            Ok(v) => v@.len() == forms@.len() && forall|i: int| 0 <= i < forms@.len()
                ==> spec_classify_form(#[trigger] forms@[i]) == Ok::<ClassifiedView, ErrorView>(v@[i]@),
            Err(e) => exists|i: int| 0 <= i < forms@.len() && spec_classify_form(#[trigger] forms@[i])
                == Err::<ClassifiedView, ErrorView>(e@) && forall|j: int| 0 <= j < i ==> spec_classify_form(forms@[j]) is Ok,
        },
{
    let mut out: Vec<ClassifiedForm> = Vec::new();
    let mut i: usize = 0;
    while i < forms.len()
        invariant
            i <= forms@.len(),
            out@.len() == i,
            forall|j: int| 0 <= j < i ==> spec_classify_form(#[trigger] forms@[j]) == Ok::<ClassifiedView, ErrorView>(out@[j]@),
        decreases forms@.len() - i,
    {
        match classify_form(&forms[i]) {
            Ok(c) => {
                out.push(c);
            },
            Err(e) => {
                assert(forall|j: int| 0 <= j < i ==> spec_classify_form(forms@[j]) is Ok);
                return Err(e);
            },
        }
        i = i + 1;
    }
    Ok(out)
}

} // verus!
