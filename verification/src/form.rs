//! The raw forms a parsed source file is made of, and the helpers that read
//! their attributes and bodies.
use vstd::prelude::*;
use crate::classify::str_is;
use crate::const_value::{dec_digits, spec_dec_digits};
use crate::errors::{ErrorView, FormIssue, FormIssueView, ScriptLangError};
use crate::text::{chars_of, is_whitespace, push_all, spec_is_whitespace, spec_trim, string_from_chars, trim_range};

verus! {

/// A row and column in a source file.
#[derive(Clone, Copy, Debug, PartialEq, Eq)]
pub struct SourcePosition {
    pub row: usize,
    pub column: usize,
}

/// Where a form stands in its source file.
#[derive(Debug, PartialEq, Eq)]
pub struct FormMeta {
    pub source_name: Option<String>,
    pub start: SourcePosition,
    pub end: SourcePosition,
    pub start_byte: usize,
    pub end_byte: usize,
}

/// The value of a field: an attribute's text, or a sequence of items.
#[derive(Debug, PartialEq, Eq)]
pub enum FormValue {
    String(String),
    Sequence(Vec<FormItem>),
}

/// A named field of a form.
#[derive(Debug, PartialEq, Eq)]
pub struct FormField {
    pub name: String,
    pub value: FormValue,
}

/// An item of a sequence: text, or a nested form.
#[derive(Debug, PartialEq, Eq)]
pub enum FormItem {
    Text(String),
    Form(Form),
}

/// A form: its head, where it stands, and its fields (attributes, and the
/// `children` sequence).
#[derive(Debug, PartialEq, Eq)]
pub struct Form {
    pub head: String,
    pub meta: FormMeta,
    pub fields: Vec<FormField>,
}

/// Index of the first field named `name` at or after `i`.
pub open spec fn spec_find_field(fields: Seq<FormField>, name: Seq<char>, i: int) -> Option<int>
    decreases fields.len() - i,
{
    if i < 0 || i >= fields.len() {
        None
    } else if fields[i].name@ == name {
        Some(i)
    } else {
        spec_find_field(fields, name, i + 1)
    }
}

pub proof fn lemma_find_field(fields: Seq<FormField>, name: Seq<char>, i: int)
    requires
        0 <= i,
    ensures
        spec_find_field(fields, name, i) matches Some(k) ==> i <= k < fields.len() && fields[k].name@ == name,
    decreases fields.len() - i,
{
    if i < fields.len() && fields[i].name@ != name {
        lemma_find_field(fields, name, i + 1);
    }
}

/// The text of the first field named `name`, when that field is an attribute.
pub open spec fn spec_attr(form: Form, name: Seq<char>) -> Option<Seq<char>> {
    match spec_find_field(form.fields@, name, 0) {
        Some(k) => match form.fields@[k].value {
            FormValue::String(v) => Some(v@),
            FormValue::Sequence(_) => None,
        },
        None => None,
    }
}

/// `row:column`.
pub open spec fn spec_position(p: SourcePosition) -> Seq<char> {
    spec_dec_digits(p.row as nat) + ":"@ + spec_dec_digits(p.column as nat)
}

/// Where a form starts: `source:row:column`, or `row:column` without a
/// source name.
pub open spec fn spec_location(meta: FormMeta) -> Seq<char> {
    match meta.source_name {
        Some(name) => name@ + ":"@ + spec_position(meta.start),
        None => spec_position(meta.start),
    }
}

/// An issue located at the form.
pub open spec fn spec_error_at(form: Form, issue: FormIssueView) -> ErrorView {
    ErrorView::At(issue, spec_location(form.meta))
}

/// The `children` items of a form.
pub open spec fn spec_children_items(form: Form) -> Result<Seq<FormItem>, ErrorView> {
    match spec_find_field(form.fields@, "children"@, 0) {
        Some(k) => match form.fields@[k].value {
            FormValue::Sequence(items) => Ok(items@),
            FormValue::String(_) => Err(spec_error_at(form, FormIssueView::InvalidChildrenShape(form.head@))),
        },
        None => Err(spec_error_at(form, FormIssueView::MissingChildren(form.head@))),
    }
}

/// Whether the text is all white space.
pub open spec fn spec_is_blank(t: Seq<char>) -> bool {
    forall|i: int| 0 <= i < t.len() ==> spec_is_whitespace(t[i])
}

/// The forms among `items[i..]`; blank text is skipped, other text is an
/// error of the `head` form `owner`.
pub open spec fn spec_collect_forms(items: Seq<FormItem>, owner: Form, i: int) -> Result<Seq<Form>, ErrorView>
    decreases items.len() - i,
{
    if i < 0 || i >= items.len() {
        Ok(Seq::empty())
    } else {
        match items[i] {
            FormItem::Form(f) => match spec_collect_forms(items, owner, i + 1) {
                Ok(rest) => Ok(seq![f] + rest),
                Err(e) => Err(e),
            },
            FormItem::Text(t) => if spec_is_blank(t@) {
                spec_collect_forms(items, owner, i + 1)
            } else {
                Err(spec_error_at(owner, FormIssueView::TextItemsUnsupported(owner.head@)))
            },
        }
    }
}

/// Heads whose body is an expression or a template.
pub open spec fn spec_is_text_body_head(head: Seq<char>) -> bool {
    head == "var"@ || head == "temp"@ || head == "const"@ || head == "code"@ || head == "text"@
}

/// The statement forms a form holds.
pub open spec fn spec_child_forms(form: Form) -> Result<Seq<Form>, ErrorView> {
    if spec_is_text_body_head(form.head@) {
        Err(spec_error_at(form, FormIssueView::NoNestedStatements(form.head@)))
    } else {
        match spec_children_items(form) {
            Ok(items) => spec_collect_forms(items, form, 0),
            Err(e) => Err(e),
        }
    }
}

/// The text items of `items[i..]` joined; a nested form is an error located
/// at that form.
pub open spec fn spec_join_text(items: Seq<FormItem>, owner_head: Seq<char>, i: int) -> Result<Seq<char>, ErrorView>
    decreases items.len() - i,
{
    if i < 0 || i >= items.len() {
        Ok(Seq::empty())
    } else {
        match items[i] {
            FormItem::Text(t) => match spec_join_text(items, owner_head, i + 1) {
                Ok(rest) => Ok(t@ + rest),
                Err(e) => Err(e),
            },
            FormItem::Form(node) => Err(spec_error_at(node, FormIssueView::NestedFormInBody(node.head@, owner_head))),
        }
    }
}

/// The joined text body of a form, trimmed.
pub open spec fn spec_trimmed_text_items(form: Form) -> Result<Seq<char>, ErrorView> {
    match spec_children_items(form) {
        Ok(items) => match spec_join_text(items, form.head@, 0) {
            Ok(t) => Ok(spec_trim(t)),
            Err(e) => Err(e),
        },
        Err(e) => Err(e),
    }
}

/// Heads whose body is an expression.
pub open spec fn spec_is_expr_head(head: Seq<char>) -> bool {
    head == "var"@ || head == "temp"@ || head == "const"@ || head == "code"@
}

/// The expression body of a `var`, `temp`, `const` or `code` form.
pub open spec fn spec_body_expr(form: Form) -> Result<Seq<char>, ErrorView> {
    if spec_is_expr_head(form.head@) {
        spec_trimmed_text_items(form)
    } else {
        Err(spec_error_at(form, FormIssueView::NotExprBody(form.head@)))
    }
}

/// The template body of a `text` form.
pub open spec fn spec_body_template(form: Form) -> Result<Seq<char>, ErrorView> {
    if form.head@ == "text"@ {
        spec_trimmed_text_items(form)
    } else {
        Err(spec_error_at(form, FormIssueView::NotTemplateBody(form.head@)))
    }
}

/// The view of a text result.
pub open spec fn spec_text_result(r: Result<String, ScriptLangError>) -> Result<Seq<char>, ErrorView> {
    match r {
        Ok(s) => Ok(s@),
        Err(e) => Err(e@),
    }
}

/// The index of the first field named `name`.
pub fn find_field(form: &Form, name: &str) -> (r: Option<usize>)
    ensures
        r matches Some(k) ==> spec_find_field(form.fields@, name@, 0) == Some(k as int),
        r is None ==> spec_find_field(form.fields@, name@, 0) is None,
        r matches Some(k) ==> k < form.fields@.len(),
{
    let mut i: usize = 0;
    while i < form.fields.len()
        invariant
            i <= form.fields@.len(),
            spec_find_field(form.fields@, name@, i as int) == spec_find_field(form.fields@, name@, 0),
        decreases form.fields@.len() - i,
    {
        if str_is(form.fields[i].name.as_str(), name) {
            return Some(i);
        }
        i = i + 1;
    }
    None
}

/// The text of the attribute `name`, if the form has it.
pub fn attr<'a>(form: &'a Form, name: &str) -> (r: Option<&'a str>)
    ensures
        match r {
            Some(v) => spec_attr(*form, name@) == Some(v@),
            None => spec_attr(*form, name@) is None,
        },
{
    match find_field(form, name) {
        Some(k) => match &form.fields[k].value {
            FormValue::String(v) => Some(v.as_str()),
            FormValue::Sequence(_) => None,
        },
        None => None,
    }
}

/// `row:column` of a position.
fn position_text(p: &SourcePosition, out: &mut Vec<char>)
    ensures
        final(out)@ == old(out)@ + spec_position(*p),
{
    let ghost start = out@;
    proof {
        reveal_strlit(":");
    }
    let row = dec_digits(p.row as u64);
    let column = dec_digits(p.column as u64);
    push_all(out, &row);
    out.push(':');
    push_all(out, &column);
    assert(out@ =~= start + spec_position(*p));
}

/// Where a form starts, as error messages print it.
pub fn location(meta: &FormMeta) -> (r: String)
    ensures
        r@ == spec_location(*meta),
{
    let mut out: Vec<char> = Vec::new();
    proof {
        reveal_strlit(":");
    }
    match &meta.source_name {
        Some(name) => {
            push_all(&mut out, &chars_of(name.as_str()));
            out.push(':');
            position_text(&meta.start, &mut out);
            assert(out@ =~= spec_location(*meta));
        },
        None => {
            position_text(&meta.start, &mut out);
            assert(out@ =~= spec_location(*meta));
        },
    }
    string_from_chars(&out)
}

/// The issue, located at the form.
pub fn error_at(form: &Form, issue: FormIssue) -> (e: ScriptLangError)
    ensures
        e@ == spec_error_at(*form, issue@),
{
    ScriptLangError::At(issue, location(&form.meta))
}

/// The text of the attribute `name`; an error when the form lacks it.
pub fn required_attr<'a>(form: &'a Form, name: &str) -> (r: Result<&'a str, ScriptLangError>)
    ensures
        match r {
            Ok(v) => spec_attr(*form, name@) == Some(v@),
            Err(e) => spec_attr(*form, name@) is None && e@ == spec_error_at(
                *form,
                FormIssueView::MissingAttr(form.head@, name@),
            ),
        },
{
    match attr(form, name) {
        Some(v) => Ok(v),
        None => {
            let issue = FormIssue::MissingAttr(form.head.clone(), name.to_string());
            Err(error_at(form, issue))
        },
    }
}

/// The items of the `children` field.
pub fn children_items(form: &Form) -> (r: Result<&Vec<FormItem>, ScriptLangError>)
    ensures
        match r {
            Ok(items) => spec_children_items(*form) == Ok::<Seq<FormItem>, ErrorView>(items@),
            Err(e) => spec_children_items(*form) == Err::<Seq<FormItem>, ErrorView>(e@),
        },
{
    proof {
        reveal_strlit("children");
    }
    match find_field(form, "children") {
        Some(k) => match &form.fields[k].value {
            FormValue::Sequence(items) => Ok(items),
            FormValue::String(_) => Err(error_at(form, FormIssue::InvalidChildrenShape(form.head.clone()))),
        },
        None => Err(error_at(form, FormIssue::MissingChildren(form.head.clone()))),
    }
}

/// Whether the text is all white space.
pub fn is_blank(text: &str) -> (b: bool)
    ensures
        b == spec_is_blank(text@),
{
    let chars = chars_of(text);
    let mut i: usize = 0;
    while i < chars.len()
        invariant
            chars@ == text@,
            i <= chars@.len(),
            forall|j: int| 0 <= j < i ==> spec_is_whitespace(chars@[j]),
        decreases chars@.len() - i,
    {
        if !is_whitespace(chars[i]) {
            return false;
        }
        i = i + 1;
    }
    true
}

/// Whether `head` is `var`, `temp`, `const` or `code`.
pub fn is_expr_head(head: &str) -> (b: bool)
    ensures
        b == spec_is_expr_head(head@),
{
    str_is(head, "var") || str_is(head, "temp") || str_is(head, "const") || str_is(head, "code")
}

/// The statement forms of a form's body: blank text is skipped; a form whose
/// body is an expression or a template, or non-blank text, is an error.
pub fn child_forms(form: &Form) -> (r: Result<Vec<&Form>, ScriptLangError>)
    ensures
        match r {
            Ok(v) => spec_child_forms(*form) matches Ok(fs) && fs.len() == v@.len()
                && forall|i: int| 0 <= i < v@.len() ==> *v@[i] == fs[i],
            Err(e) => spec_child_forms(*form) == Err::<Seq<Form>, ErrorView>(e@),
        },
{
    if is_expr_head(form.head.as_str()) || str_is(form.head.as_str(), "text") {
        return Err(error_at(form, FormIssue::NoNestedStatements(form.head.clone())));
    }
    let items = match children_items(form) {
        Ok(items) => items,
        Err(e) => {
            return Err(e);
        },
    };
    let mut children: Vec<&Form> = Vec::new();
    let mut i: usize = 0;
    while i < items.len()
        invariant
            i <= items@.len(),
            spec_children_items(*form) == Ok::<Seq<FormItem>, ErrorView>(items@),
            !spec_is_text_body_head(form.head@),
            match spec_collect_forms(items@, *form, i as int) {
                Ok(rest) => spec_collect_forms(items@, *form, 0) matches Ok(all) && all.len()
                    == children@.len() + rest.len() && (forall|j: int| 0 <= j < children@.len() ==> *children@[j] == all[j])
                    && (forall|j: int| 0 <= j < rest.len() ==> rest[j] == all[children@.len() + j]),
                Err(e) => spec_collect_forms(items@, *form, 0) == Err::<Seq<Form>, ErrorView>(e),
            },
        decreases items@.len() - i,
    {
        match &items[i] {
            FormItem::Form(f) => {
                let ghost old_children = children@;
                children.push(f);
                proof {
                    match spec_collect_forms(items@, *form, i + 1) {
                        Ok(rest) => {
                            let full = seq![*f] + rest;
                            assert(spec_collect_forms(items@, *form, i as int) == Ok::<Seq<Form>, ErrorView>(full));
                            match spec_collect_forms(items@, *form, 0) {
                                Ok(all) => {
                                    assert(full[0] == all[old_children.len() as int]);
                                    assert forall|j: int| 0 <= j < children@.len() implies *children@[j] == all[j] by {
                                        if j < old_children.len() {
                                            assert(children@[j] == old_children[j]);
                                        }
                                    }
                                    assert forall|j: int| 0 <= j < rest.len() implies rest[j] == all[children@.len() + j] by {
                                        assert(rest[j] == full[j + 1]);
                                    }
                                },
                                Err(_) => {},
                            }
                        },
                        Err(e) => {},
                    }
                }
            },
            FormItem::Text(t) => {
                if !is_blank(t.as_str()) {
                    return Err(error_at(form, FormIssue::TextItemsUnsupported(form.head.clone())));
                }
            },
        }
        i = i + 1;
    }
    Ok(children)
}

/// The text items of `items` joined; a nested form is an error located at
/// that form.
pub fn join_text_items(items: &Vec<FormItem>, owner_head: &str) -> (r: Result<Vec<char>, ScriptLangError>)
    ensures
        match r {
            Ok(t) => spec_join_text(items@, owner_head@, 0) == Ok::<Seq<char>, ErrorView>(t@),
            Err(e) => spec_join_text(items@, owner_head@, 0) == Err::<Seq<char>, ErrorView>(e@),
        },
{
    let mut text: Vec<char> = Vec::new();
    let mut i: usize = 0;
    while i < items.len()
        invariant
            i <= items@.len(),
            match spec_join_text(items@, owner_head@, i as int) {
                Ok(rest) => spec_join_text(items@, owner_head@, 0) == Ok::<Seq<char>, ErrorView>(text@ + rest),
                Err(e) => spec_join_text(items@, owner_head@, 0) == Err::<Seq<char>, ErrorView>(e),
            },
        decreases items@.len() - i,
    {
        match &items[i] {
            FormItem::Text(t) => {
                let ghost old_text = text@;
                push_all(&mut text, &chars_of(t.as_str()));
                proof {
                    match spec_join_text(items@, owner_head@, i + 1) {
                        Ok(rest) => {
                            assert(text@ + rest =~= old_text + (t@ + rest));
                        },
                        Err(e) => {},
                    }
                }
            },
            FormItem::Form(node) => {
                return Err(error_at(node, FormIssue::NestedFormInBody(node.head.clone(), owner_head.to_string())));
            },
        }
        i = i + 1;
    }
    assert(text@ + Seq::<char>::empty() =~= text@);
    Ok(text)
}

/// The text items of a form's body joined and trimmed; a nested form is an
/// error.
pub fn trimmed_text_items(form: &Form) -> (r: Result<String, ScriptLangError>)
    ensures
        spec_text_result(r) == spec_trimmed_text_items(*form),
{
    let items = match children_items(form) {
        Ok(items) => items,
        Err(e) => {
            return Err(e);
        },
    };
    let text = match join_text_items(items, form.head.as_str()) {
        Ok(t) => t,
        Err(e) => {
            return Err(e);
        },
    };
    let trimmed = trim_range(&text, 0, text.len());
    assert(text@.subrange(0, text@.len() as int) =~= text@);
    Ok(string_from_chars(&trimmed))
}

/// The expression body of a `var`, `temp`, `const` or `code` form.
pub fn body_expr(form: &Form) -> (r: Result<String, ScriptLangError>)
    ensures
        spec_text_result(r) == spec_body_expr(*form),
{
    if !is_expr_head(form.head.as_str()) {
        return Err(error_at(form, FormIssue::NotExprBody(form.head.clone())));
    }
    trimmed_text_items(form)
}

/// The template body of a `text` form.
pub fn body_template(form: &Form) -> (r: Result<String, ScriptLangError>)
    ensures
        spec_text_result(r) == spec_body_template(*form),
{
    if !str_is(form.head.as_str(), "text") {
        return Err(error_at(form, FormIssue::NotTemplateBody(form.head.clone())));
    }
    trimmed_text_items(form)
}

/// The forms `spec_collect_forms` gathers are items of the sequence.
pub proof fn lemma_collect_forms_sub(items: Seq<FormItem>, owner: Form, i: int)
    requires
        0 <= i,
    ensures
        spec_collect_forms(items, owner, i) matches Ok(fs) ==> forall|j: int| 0 <= j < fs.len() ==> decreases_to!(items => fs[j]),
    decreases items.len() - i,
{
    if i < items.len() {
        lemma_collect_forms_sub(items, owner, i + 1);
        match items[i] {
            FormItem::Form(f) => {
                if let Ok(rest) = spec_collect_forms(items, owner, i + 1) {
                    assert(decreases_to!(items => items[i]));
                    assert(decreases_to!(items[i] => f));
                    let all = seq![f] + rest;
                    assert forall|j: int| 0 <= j < all.len() implies decreases_to!(items => all[j]) by {
                        if j > 0 {
                            assert(all[j] == rest[j - 1]);
                        }
                    }
                }
            },
            FormItem::Text(_) => {},
        }
    }
}

/// The statement forms a form holds are parts of it.
pub proof fn lemma_child_forms_sub(f: Form)
    ensures
        spec_child_forms(f) matches Ok(fs) ==> forall|j: int| 0 <= j < fs.len() ==> decreases_to!(f => fs[j]),
{
    if let Ok(fs) = spec_child_forms(f) {
        let k = spec_find_field(f.fields@, "children"@, 0)->0;
        lemma_find_field(f.fields@, "children"@, 0);
        let items = f.fields@[k].value->Sequence_0;
        lemma_collect_forms_sub(items@, f, 0);
        assert(decreases_to!(f => f.fields));
        assert(decreases_to!(f.fields => f.fields@));
        assert(decreases_to!(f.fields@ => f.fields@[k]));
        assert(decreases_to!(f.fields@[k] => f.fields@[k].value));
        assert(decreases_to!(f.fields@[k].value => items));
        assert(decreases_to!(items => items@));
        assert forall|j: int| 0 <= j < fs.len() implies decreases_to!(f => fs[j]) by {
            assert(decreases_to!(items@ => fs[j]));
        }
    }
}

/// A form as a mathematical value, nested forms included.
pub struct FormView {
    pub head: Seq<char>,
    pub meta: crate::classify::MetaView,
    pub fields: Seq<(Seq<char>, ValueView)>,
}

/// A field value as a mathematical value.
pub enum ValueView {
    String(Seq<char>),
    Sequence(Seq<ItemView>),
}

/// An item as a mathematical value.
pub enum ItemView {
    Text(Seq<char>),
    Form(FormView),
}

pub open spec fn spec_form_deep(f: Form) -> FormView
    decreases f,
{
    FormView { head: f.head@, meta: crate::classify::spec_meta_view(f.meta), fields: spec_fields_deep(f.fields@) }
}

pub open spec fn spec_fields_deep(fs: Seq<FormField>) -> Seq<(Seq<char>, ValueView)>
    decreases fs,
{
    if fs.len() == 0 {
        Seq::empty()
    } else {
        spec_fields_deep(fs.drop_last()).push((fs.last().name@, spec_value_deep(fs.last().value)))
    }
}

pub open spec fn spec_value_deep(v: FormValue) -> ValueView
    decreases v,
{
    match v {
        FormValue::String(t) => ValueView::String(t@),
        FormValue::Sequence(items) => ValueView::Sequence(spec_items_deep(items@)),
    }
}

pub open spec fn spec_items_deep(items: Seq<FormItem>) -> Seq<ItemView>
    decreases items,
{
    if items.len() == 0 {
        Seq::empty()
    } else {
        spec_items_deep(items.drop_last()).push(spec_item_deep(items.last()))
    }
}

pub open spec fn spec_item_deep(item: FormItem) -> ItemView
    decreases item,
{
    match item {
        FormItem::Text(t) => ItemView::Text(t@),
        FormItem::Form(f) => ItemView::Form(spec_form_deep(f)),
    }
}

/// A copy of a form, nested forms included.
pub fn copy_form(f: &Form) -> (r: Form)
    ensures
        spec_form_deep(r) == spec_form_deep(*f),
    decreases f, 3nat,
{
    proof {
        assert(decreases_to!(f => f.fields));
    }
    let fields = copy_fields(&f.fields);
    Form { head: f.head.clone(), meta: crate::classify::copy_meta(&f.meta), fields }
}

/// A copy of a list of fields.
pub fn copy_fields(fs: &Vec<FormField>) -> (r: Vec<FormField>)
    ensures
        spec_fields_deep(r@) == spec_fields_deep(fs@),
    decreases fs, 2nat,
{
    let mut out: Vec<FormField> = Vec::new();
    let mut i: usize = 0;
    while i < fs.len()
        invariant
            i <= fs@.len(),
            spec_fields_deep(out@) == spec_fields_deep(fs@.take(i as int)),
        decreases fs@.len() - i,
    {
        proof {
            assert(decreases_to!(fs => fs@));
            assert(decreases_to!(fs@ => fs@[i as int]));
            assert(decreases_to!(fs@[i as int] => fs@[i as int].value));
        }
        let value = match &fs[i].value {
            FormValue::String(t) => FormValue::String(t.clone()),
            FormValue::Sequence(items) => {
                proof {
                    assert(decreases_to!(fs@[i as int].value => *items));
                }
                FormValue::Sequence(copy_items(items))
            },
        };
        assert(spec_value_deep(value) == spec_value_deep(fs@[i as int].value));
        let field = FormField { name: fs[i].name.clone(), value };
        let ghost before = out@;
        out.push(field);
        proof {
            assert(out@.drop_last() =~= before);
            assert(out@.last() == field);
            assert(fs@.take(i + 1).drop_last() =~= fs@.take(i as int));
            assert(fs@.take(i + 1).last() == fs@[i as int]);
            assert(spec_fields_deep(out@) == spec_fields_deep(before).push((field.name@, spec_value_deep(field.value))));
            assert(spec_fields_deep(fs@.take(i + 1)) == spec_fields_deep(fs@.take(i as int)).push(
                (fs@[i as int].name@, spec_value_deep(fs@[i as int].value)),
            ));
        }
        i = i + 1;
    }
    assert(fs@.take(fs@.len() as int) =~= fs@);
    out
}

/// A copy of a list of items, nested forms included.
pub fn copy_items(items: &Vec<FormItem>) -> (r: Vec<FormItem>)
    ensures
        spec_items_deep(r@) == spec_items_deep(items@),
    decreases items, 1nat,
{
    let mut out: Vec<FormItem> = Vec::new();
    let mut i: usize = 0;
    while i < items.len()
        invariant
            i <= items@.len(),
            spec_items_deep(out@) == spec_items_deep(items@.take(i as int)),
        decreases items@.len() - i,
    {
        proof {
            assert(decreases_to!(items => items@));
            assert(decreases_to!(items@ => items@[i as int]));
        }
        let item = match &items[i] {
            FormItem::Text(t) => FormItem::Text(t.clone()),
            FormItem::Form(f) => {
                proof {
                    assert(decreases_to!(items@[i as int] => *f));
                }
                FormItem::Form(copy_form(f))
            },
        };
        assert(spec_item_deep(item) == spec_item_deep(items@[i as int]));
        let ghost before = out@;
        out.push(item);
        proof {
            assert(out@.drop_last() =~= before);
            assert(out@.last() == item);
            assert(items@.take(i + 1).drop_last() =~= items@.take(i as int));
            assert(items@.take(i + 1).last() == items@[i as int]);
            assert(spec_items_deep(out@) == spec_items_deep(before).push(spec_item_deep(item)));
            assert(spec_items_deep(items@.take(i + 1)) == spec_items_deep(items@.take(i as int)).push(spec_item_deep(items@[i as int])));
        }
        i = i + 1;
    }
    assert(items@.take(items@.len() as int) =~= items@);
    out
}

} // verus!
