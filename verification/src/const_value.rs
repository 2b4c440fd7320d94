//! Compile-time constant values and their rendering as expression literals.
use vstd::prelude::*;
use crate::collections::NameMap;
use crate::text::{chars_of, push_all, string_from_chars};
use crate::const_eval::spec_parse_const_value;
use crate::errors::ErrorView;
use crate::readback::{
    law_literal_round_trip, lemma_entries_each, lemma_entries_fit_step, lemma_items_each, lemma_items_fit_step,
    lemma_printable_is_ascii, spec_entries_fit, spec_items_fit, spec_literal_shape, spec_reads_back,
};
use crate::resolve::ResolverView;

verus! {

/// A compile-time constant.
#[derive(Debug, PartialEq, Eq)]
pub enum ConstValue {
    Bool(bool),
    /// A function reference, by qualified name.
    Function(String),
    Integer(i64),
    String(String),
    /// A script reference, by qualified name.
    Script(String),
    Array(Vec<ConstValue>),
    Object(NameMap<ConstValue>),
}

/// The mathematical value of a const: strings as character sequences, an
/// object as its entries in key order.
pub enum ConstView {
    Bool(bool),
    Function(Seq<char>),
    Integer(int),
    String(Seq<char>),
    Script(Seq<char>),
    Array(Seq<ConstView>),
    Object(Seq<(Seq<char>, ConstView)>),
}

/// The views of a sequence of values.
pub open spec fn spec_view_values(items: Seq<ConstValue>) -> Seq<ConstView>
    decreases items,
{
    if items.len() == 0 {
        Seq::empty()
    } else {
        spec_view_values(items.drop_last()).push(spec_const_view(items.last()))
    }
}

/// The views of a sequence of object entries.
pub open spec fn spec_view_entries(entries: Seq<(String, ConstValue)>) -> Seq<(Seq<char>, ConstView)>
    decreases entries,
{
    if entries.len() == 0 {
        Seq::empty()
    } else {
        spec_view_entries(entries.drop_last()).push(
            (entries.last().0@, spec_const_view(entries.last().1)),
        )
    }
}

/// The mathematical value of `v`.
pub open spec fn spec_const_view(v: ConstValue) -> ConstView
    decreases v,
{
    match v {
        ConstValue::Bool(b) => ConstView::Bool(b),
        ConstValue::Function(s) => ConstView::Function(s@),
        ConstValue::Integer(n) => ConstView::Integer(n as int),
        ConstValue::String(s) => ConstView::String(s@),
        ConstValue::Script(s) => ConstView::Script(s@),
        ConstValue::Array(items) => ConstView::Array(spec_view_values(items@)),
        ConstValue::Object(m) => ConstView::Object(spec_view_entries(m.entries@)),
    }
}

impl View for ConstValue {
    type V = ConstView;

    open spec fn view(&self) -> ConstView {
        spec_const_view(*self)
    }
}

pub proof fn lemma_view_values_len(items: Seq<ConstValue>)
    ensures
        spec_view_values(items).len() == items.len(),
        forall|i: int| 0 <= i < items.len() ==> #[trigger] spec_view_values(items)[i] == spec_const_view(items[i]),
    decreases items.len(),
{
    if items.len() > 0 {
        lemma_view_values_len(items.drop_last());
    }
}

pub proof fn lemma_view_entries_len(entries: Seq<(String, ConstValue)>)
    ensures
        spec_view_entries(entries).len() == entries.len(),
        forall|i: int| 0 <= i < entries.len() ==> #[trigger] spec_view_entries(entries)[i] == (entries[i].0@, spec_const_view(entries[i].1)),
    decreases entries.len(),
{
    if entries.len() > 0 {
        lemma_view_entries_len(entries.drop_last());
    }
}

/// The text `std` renders for a string with the `{:?}` format: the string
/// in double quotes, with escapes.
pub uninterp spec fn spec_debug_str(s: Seq<char>) -> Seq<char>;

/// How `{:?}` renders an ASCII character inside a string.
pub open spec fn spec_ascii_debug_escape(c: char) -> Seq<char> {
    if c == '\0' {
        seq!['\\', '0']
    } else if c == '\t' {
        seq!['\\', 't']
    } else if c == '\r' {
        seq!['\\', 'r']
    } else if c == '\n' {
        seq!['\\', 'n']
    } else if c == '\\' {
        seq!['\\', '\\']
    } else if c == '"' {
        seq!['\\', '"']
    } else if ' ' <= c && c <= '~' {
        seq![c]
    } else {
        seq!['\\', 'u', '{'] + spec_hex_digits(c as nat) + seq!['}']
    }
}

/// Lower-case hexadecimal digits of `n`, no leading zeros.
pub open spec fn spec_hex_digits(n: nat) -> Seq<char>
    decreases n,
{
    if n < 16 {
        seq![spec_hex_digit(n)]
    } else {
        spec_hex_digits(n / 16) + seq![spec_hex_digit(n % 16)]
    }
}

pub open spec fn spec_hex_digit(d: nat) -> char {
    if d < 10 {
        (('0' as nat) + d) as char
    } else {
        (('a' as nat) + d - 10) as char
    }
}

/// The escaped body of an ASCII string.
pub open spec fn spec_ascii_debug_body(s: Seq<char>) -> Seq<char>
    decreases s.len(),
{
    if s.len() == 0 {
        Seq::empty()
    } else {
        spec_ascii_debug_body(s.drop_last()) + spec_ascii_debug_escape(s.last())
    }
}

pub open spec fn spec_is_ascii(s: Seq<char>) -> bool {
    forall|i: int| 0 <= i < s.len() ==> (s[i] as nat) < 128
}

/// `format!("{:?}", s)`: the string quoted and escaped as `std` does it.
#[verifier::external_body]
pub(crate) fn debug_str(s: &str) -> (r: String)
    ensures
        r@ == spec_debug_str(s@),
        spec_is_ascii(s@) ==> r@ == seq!['"'] + spec_ascii_debug_body(s@) + seq!['"'],
{
    format!("{:?}", s)
}

/// Decimal digits of `n`, no leading zeros.
pub open spec fn spec_dec_digits(n: nat) -> Seq<char>
    decreases n,
{
    if n < 10 {
        seq![(('0' as nat) + n) as char]
    } else {
        spec_dec_digits(n / 10) + seq![(('0' as nat) + n % 10) as char]
    }
}

/// Decimal text of an integer, with `-` before a negative one.
pub open spec fn spec_decimal(n: int) -> Seq<char> {
    if n < 0 {
        seq!['-'] + spec_dec_digits((-n) as nat)
    } else {
        spec_dec_digits(n as nat)
    }
}

/// Decimal digits of `n`.
pub fn dec_digits(n: u64) -> (r: Vec<char>)
    ensures
        r@ == spec_dec_digits(n as nat),
    decreases n,
{
    if n < 10 {
        let d = char_of_digit(n);
        vec![d]
    } else {
        let mut r = dec_digits(n / 10);
        let d = char_of_digit(n % 10);
        r.push(d);
        r
    }
}

fn char_of_digit(d: u64) -> (c: char)
    requires
        d < 10,
    ensures
        c == (('0' as nat) + d) as char,
{
    if d == 0 {
        '0'
    } else if d == 1 {
        '1'
    } else if d == 2 {
        '2'
    } else if d == 3 {
        '3'
    } else if d == 4 {
        '4'
    } else if d == 5 {
        '5'
    } else if d == 6 {
        '6'
    } else if d == 7 {
        '7'
    } else if d == 8 {
        '8'
    } else {
        '9'
    }
}

/// Decimal text of an integer, as `to_string` renders it.
pub fn decimal_string(n: i64) -> (r: Vec<char>)
    ensures
        r@ == spec_decimal(n as int),
{
    if n < 0 {
        let m: u64 = (0i128 - (n as i128)) as u64;
        let mut r = vec!['-'];
        let d = dec_digits(m);
        push_all(&mut r, &d);
        r
    } else {
        dec_digits(n as u64)
    }
}

/// `", "` between the rendered items.
pub open spec fn spec_join_values(items: Seq<ConstView>) -> Seq<char>
    decreases items,
{
    if items.len() == 0 {
        Seq::empty()
    } else if items.len() == 1 {
        spec_rhai_literal(items[0])
    } else {
        spec_join_values(items.drop_last()) + seq![',', ' '] + spec_rhai_literal(items.last())
    }
}

/// `key: value` pairs, `", "` between them.
pub open spec fn spec_join_entries(entries: Seq<(Seq<char>, ConstView)>) -> Seq<char>
    decreases entries,
{
    if entries.len() == 0 {
        Seq::empty()
    } else if entries.len() == 1 {
        entries[0].0 + seq![':', ' '] + spec_rhai_literal(entries[0].1)
    } else {
        spec_join_entries(entries.drop_last()) + seq![',', ' '] + entries.last().0 + seq![':', ' ']
            + spec_rhai_literal(entries.last().1)
    }
}

/// The expression literal that stands for a const value: `true`/`false`,
/// decimal integers, `{:?}`-quoted strings (for strings, scripts and
/// functions), `[a, b]` arrays and `#{key: value}` objects in key order.
pub open spec fn spec_rhai_literal(v: ConstView) -> Seq<char>
    decreases v,
{
    match v {
        ConstView::Bool(b) => if b {
            seq!['t', 'r', 'u', 'e']
        } else {
            seq!['f', 'a', 'l', 's', 'e']
        },
        ConstView::Integer(n) => spec_decimal(n),
        ConstView::String(s) => spec_debug_str(s),
        ConstView::Function(s) => spec_debug_str(s),
        ConstView::Script(s) => spec_debug_str(s),
        ConstView::Array(items) => seq!['['] + spec_join_values(items) + seq![']'],
        ConstView::Object(entries) => seq!['#', '{'] + spec_join_entries(entries) + seq!['}'],
    }
}

impl ConstValue {
    /// Renders the value as an expression literal.
    ///
    /// A string of ASCII renders as its escaped text in double quotes. A value
    /// of the literal shape ([`spec_literal_shape`]) renders to a literal
    /// that parses back as the value, whatever the consts in scope.
    pub fn to_rhai_literal(&self) -> (r: String)
        ensures
            r@ == spec_rhai_literal(self@),
            (self@ is String && spec_is_ascii(self@->String_0)) ==> r@ == seq!['"'] + spec_ascii_debug_body(
                self@->String_0,
            ) + seq!['"'],
            spec_literal_shape(self@) ==> forall|env: Map<Seq<char>, ConstView>, res: ResolverView, blocked: Set<Seq<char>>|
                #[trigger] spec_parse_const_value(r@, env, res, blocked, None) == Ok::<ConstView, ErrorView>(self@),
    {
        let v = self.literal_chars();
        let r = string_from_chars(&v);
        proof {
            if spec_literal_shape(self@) {
                assert forall|env: Map<Seq<char>, ConstView>, res: ResolverView, blocked: Set<Seq<char>>|
                    #[trigger] spec_parse_const_value(r@, env, res, blocked, None) == Ok::<ConstView, ErrorView>(
                        self@,
                    ) by {
                    law_literal_round_trip(self@, env, res, blocked);
                }
            }
        }
        r
    }

    fn literal_chars(&self) -> (r: Vec<char>)
        ensures
            r@ == spec_rhai_literal(self@),
            (self@ is String && spec_is_ascii(self@->String_0)) ==> r@ == seq!['"'] + spec_ascii_debug_body(
                self@->String_0,
            ) + seq!['"'],
            spec_literal_shape(self@) ==> spec_reads_back(self@),
        decreases self,
    {
        match self {
            ConstValue::Bool(b) => {
                if *b {
                    let r = vec!['t', 'r', 'u', 'e'];
                    assert(r@ =~= seq!['t', 'r', 'u', 'e']);
                    r
                } else {
                    let r = vec!['f', 'a', 'l', 's', 'e'];
                    assert(r@ =~= seq!['f', 'a', 'l', 's', 'e']);
                    r
                }
            },
            ConstValue::Integer(n) => decimal_string(*n),
            ConstValue::String(s) => {
                let r = chars_of(debug_str(s.as_str()).as_str());
                proof {
                    if spec_literal_shape(self@) {
                        lemma_printable_is_ascii(s@);
                    }
                }
                r
            },
            ConstValue::Function(s) => chars_of(debug_str(s.as_str()).as_str()),
            ConstValue::Script(s) => chars_of(debug_str(s.as_str()).as_str()),
            ConstValue::Array(items) => {
                let mut out: Vec<char> = vec!['['];
                let mut i: usize = 0;
                proof {
                    lemma_items_fit_step(self@, spec_view_values(items@), 0, true);
                }
                while i < items.len()
                    invariant
                        i <= items@.len(),
                        *self == ConstValue::Array(*items),
                        self@ == ConstView::Array(spec_view_values(items@)),
                        out@ == seq!['['] + spec_join_values(spec_view_values(items@.take(i as int))),
                        spec_literal_shape(self@) ==> spec_items_fit(self@, spec_view_values(items@).take(i as int), true),
                    decreases items@.len() - i,
                {
                    if i > 0 {
                        out.push(',');
                        out.push(' ');
                    }
                    proof {
                        assert(decreases_to!(*self => (*self)->Array_0));
                        assert(decreases_to!(*items => items@));
                        assert(decreases_to!(items@ => items@[i as int]));
                        assert(decreases_to!(*self => items@[i as int]));
                    }
                    let item = items[i].literal_chars();
                    push_all(&mut out, &item);
                    proof {
                        let t = items@.take(i + 1);
                        assert(t.drop_last() =~= items@.take(i as int));
                        assert(t.last() == items@[i as int]);
                        lemma_view_values_len(t);
                        lemma_view_values_len(items@.take(i as int));
                        assert(spec_view_values(t).drop_last() =~= spec_view_values(items@.take(i as int)));
                        let vs = spec_view_values(items@);
                        lemma_view_values_len(items@);
                        if spec_literal_shape(self@) {
                            lemma_items_each(self@, vs, i as int, false);
                            assert(vs[i as int] == items@[i as int]@);
                            lemma_items_fit_step(self@, vs, i as int, true);
                        }
                    }
                    assert(out@ =~= seq!['['] + spec_join_values(spec_view_values(items@.take(i + 1))));
                    i = i + 1;
                }
                assert(items@.take(i as int) =~= items@);
                proof {
                    lemma_view_values_len(items@);
                    if spec_literal_shape(self@) {
                        lemma_items_fit_step(self@, spec_view_values(items@), i as int, true);
                    }
                }
                out.push(']');
                out
            },
            ConstValue::Object(m) => {
                let mut out: Vec<char> = vec!['#', '{'];
                let mut i: usize = 0;
                proof {
                    lemma_view_entries_len(m.entries@);
                    if spec_view_entries(m.entries@).len() > 0 {
                        lemma_entries_fit_step(self@, spec_view_entries(m.entries@), 0, true);
                    } else {
                        assert(spec_view_entries(m.entries@).take(0) =~= Seq::<(Seq<char>, ConstView)>::empty());
                    }
                }
                while i < m.entries.len()
                    invariant
                        i <= m.entries@.len(),
                        *self == ConstValue::Object(*m),
                        self@ == ConstView::Object(spec_view_entries(m.entries@)),
                        out@ == seq!['#', '{'] + spec_join_entries(spec_view_entries(m.entries@.take(i as int))),
                        spec_literal_shape(self@) ==> spec_entries_fit(self@, spec_view_entries(m.entries@).take(i as int), true),
                    decreases m.entries@.len() - i,
                {
                    if i > 0 {
                        out.push(',');
                        out.push(' ');
                    }
                    let key = chars_of(m.entries[i].0.as_str());
                    push_all(&mut out, &key);
                    out.push(':');
                    out.push(' ');
                    proof {
                        assert(decreases_to!(*self => (*self)->Object_0));
                        assert(decreases_to!(*m => m.entries));
                        assert(decreases_to!(m.entries => m.entries@));
                        assert(decreases_to!(m.entries@ => m.entries@[i as int]));
                        assert(decreases_to!(m.entries@[i as int] => m.entries@[i as int].1));
                        assert(decreases_to!(*self => m.entries@[i as int].1));
                    }
                    let item = m.entries[i].1.literal_chars();
                    push_all(&mut out, &item);
                    proof {
                        let t = m.entries@.take(i + 1);
                        assert(t.drop_last() =~= m.entries@.take(i as int));
                        assert(t.last() == m.entries@[i as int]);
                        lemma_view_entries_len(t);
                        lemma_view_entries_len(m.entries@.take(i as int));
                        assert(spec_view_entries(t).drop_last() =~= spec_view_entries(m.entries@.take(i as int)));
                        let es = spec_view_entries(m.entries@);
                        lemma_view_entries_len(m.entries@);
                        if spec_literal_shape(self@) {
                            lemma_entries_each(self@, es, i as int, false);
                            assert(es[i as int].1 == m.entries@[i as int].1@);
                            lemma_entries_fit_step(self@, es, i as int, true);
                        }
                    }
                    assert(out@ =~= seq!['#', '{'] + spec_join_entries(spec_view_entries(m.entries@.take(i + 1))));
                    i = i + 1;
                }
                assert(m.entries@.take(i as int) =~= m.entries@);
                proof {
                    lemma_view_entries_len(m.entries@);
                    if spec_literal_shape(self@) {
                        lemma_entries_fit_step(self@, spec_view_entries(m.entries@), i as int, true);
                    }
                }
                out.push('}');
                out
            },
        }
    }
}

impl ConstValue {
    /// A copy of the value, equal to it.
    pub fn copy_value(&self) -> (r: ConstValue)
        ensures
            r@ == self@,
        decreases self,
    {
        match self {
            ConstValue::Bool(b) => ConstValue::Bool(*b),
            ConstValue::Integer(n) => ConstValue::Integer(*n),
            ConstValue::String(s) => ConstValue::String(s.clone()),
            ConstValue::Function(s) => ConstValue::Function(s.clone()),
            ConstValue::Script(s) => ConstValue::Script(s.clone()),
            ConstValue::Array(items) => {
                let mut out: Vec<ConstValue> = Vec::new();
                let mut i: usize = 0;
                while i < items.len()
                    invariant
                        i <= items@.len(),
                        *self == ConstValue::Array(*items),
                        out@.len() == i,
                        spec_view_values(out@) == spec_view_values(items@.take(i as int)),
                    decreases items@.len() - i,
                {
                    proof {
                        assert(decreases_to!(*self => (*self)->Array_0));
                        assert(decreases_to!(*items => items@));
                        assert(decreases_to!(items@ => items@[i as int]));
                    }
                    let item = items[i].copy_value();
                    let ghost old_out = out@;
                    out.push(item);
                    proof {
                        assert(out@.drop_last() =~= old_out);
                        assert(items@.take(i + 1).drop_last() =~= items@.take(i as int));
                    }
                    i = i + 1;
                }
                assert(items@.take(i as int) =~= items@);
                ConstValue::Array(out)
            },
            ConstValue::Object(m) => {
                let mut out: Vec<(String, ConstValue)> = Vec::new();
                let mut i: usize = 0;
                while i < m.entries.len()
                    invariant
                        i <= m.entries@.len(),
                        *self == ConstValue::Object(*m),
                        out@.len() == i,
                        spec_view_entries(out@) == spec_view_entries(m.entries@.take(i as int)),
                        forall|j: int| 0 <= j < i ==> #[trigger] out@[j].0@ == m.entries@[j].0@,
                    decreases m.entries@.len() - i,
                {
                    proof {
                        assert(decreases_to!(*self => (*self)->Object_0));
                        assert(decreases_to!(*m => m.entries));
                        assert(decreases_to!(m.entries => m.entries@));
                        assert(decreases_to!(m.entries@ => m.entries@[i as int]));
                        assert(decreases_to!(m.entries@[i as int] => m.entries@[i as int].1));
                    }
                    let key = m.entries[i].0.clone();
                    let item = m.entries[i].1.copy_value();
                    let ghost old_out = out@;
                    out.push((key, item));
                    proof {
                        assert(out@.drop_last() =~= old_out);
                        assert(m.entries@.take(i + 1).drop_last() =~= m.entries@.take(i as int));
                    }
                    i = i + 1;
                }
                assert(m.entries@.take(i as int) =~= m.entries@);
                ConstValue::Object(NameMap { entries: out })
            },
        }
    }
}

} // verus!
