//! Reading rendered const literals back: the literal a const value renders
//! to parses back as the same value.
use vstd::prelude::*;
use crate::collections::{lemma_insert_pos, name_lt, spec_entries_insert, spec_insert_pos, spec_keys_of};
use crate::const_eval::{
    spec_array_items, spec_digits_end, spec_digits_value, spec_object_entries, spec_parse_const_value,
    spec_parse_ident, spec_parse_number, spec_parse_object_key, spec_parse_path, spec_parse_string,
    spec_env_get, spec_parse_value, spec_path_rest, spec_resolve_reference, spec_skip_ws, spec_string_body,
};
use crate::const_value::{
    ConstView, spec_ascii_debug_body, spec_debug_str, spec_is_ascii, spec_dec_digits, spec_decimal, spec_join_entries,
    spec_join_values, spec_rhai_literal,
};
use crate::errors::ErrorView;
use crate::expr::rewrite::{
    spec_const_piece, spec_is_map_key, spec_is_property_access, spec_next_non_ws, spec_prev_non_ws,
    spec_rewrite_consts_from,
};
use crate::expr::scan::spec_reference_path;
use crate::expr::scan::spec_ident_end;
use crate::laws::{lemma_ascii_body_reads_back, lemma_dec_digits, lemma_digits_value_shift, spec_printable_ascii};
use crate::resolve::ResolverView;
use crate::text::{spec_is_ascii_digit, spec_is_ident_continue, spec_is_ident_start, spec_is_whitespace};

verus! {

/// Whether `k` is an identifier: a first character that may start one and
/// characters that may continue one.
pub open spec fn spec_is_ident_text(k: Seq<char>) -> bool {
    &&& k.len() >= 1
    &&& spec_is_ident_start(k[0])
    &&& forall|i: int| 1 <= i < k.len() ==> spec_is_ident_continue(#[trigger] k[i])
}

/// Values of the shape whose literal reads back as the value: booleans,
/// `i64` integers, strings of printable ASCII, arrays of such values, and
/// objects whose keys are identifiers in ascending order and whose values are
/// such values. With `quoted`, each string must also be one that `{:?}`
/// renders as quoted, escaped text.
pub open spec fn spec_fits_literal(v: ConstView, quoted: bool) -> bool
    decreases v, 1int,
{
    match v {
        ConstView::Bool(_) => true,
        ConstView::Integer(n) => i64::MIN <= n <= i64::MAX,
        ConstView::String(s) => spec_printable_ascii(s) && (quoted ==> spec_debug_str(s) == seq!['"']
            + spec_ascii_debug_body(s) + seq!['"']),
        ConstView::Array(items) => spec_items_fit(v, items, quoted),
        ConstView::Object(entries) => {
            &&& forall|i: int, j: int| 0 <= i < j < entries.len() ==> name_lt(#[trigger] entries[i].0, #[trigger] entries[j].0)
            &&& spec_entries_fit(v, entries, quoted)
        },
        _ => false,
    }
}

/// The shape of value whose literal reads back (see [`spec_fits_literal`]).
pub open spec fn spec_literal_shape(v: ConstView) -> bool {
    spec_fits_literal(v, false)
}

/// Values whose literal reads back as the value: of the literal shape, with
/// each string rendered as quoted, escaped text.
pub open spec fn spec_reads_back(v: ConstView) -> bool {
    spec_fits_literal(v, true)
}

/// Whether each of `items`, the items (or first items) of the array
/// `parent`, fits [`spec_fits_literal`].
pub open spec fn spec_items_fit(parent: ConstView, items: Seq<ConstView>, quoted: bool) -> bool
    decreases parent, 0int, items.len(),
{
    if parent == ConstView::Array(items) || (parent is Array && items.len() < parent->Array_0.len() && items
        =~= parent->Array_0.take(items.len() as int)) {
        if items.len() == 0 {
            true
        } else {
            proof {
                assert(decreases_to!(parent => parent->Array_0));
            }
            spec_items_fit(parent, items.drop_last(), quoted) && spec_fits_literal(items.last(), quoted)
        }
    } else {
        false
    }
}

/// Whether each entry of `entries`, the entries (or first entries) of the
/// object `parent`, has an identifier key and a value that fits
/// [`spec_fits_literal`].
pub open spec fn spec_entries_fit(parent: ConstView, entries: Seq<(Seq<char>, ConstView)>, quoted: bool) -> bool
    decreases parent, 0int, entries.len(),
{
    if parent == ConstView::Object(entries) || (parent is Object && entries.len() < parent->Object_0.len()
        && entries =~= parent->Object_0.take(entries.len() as int)) {
        if entries.len() == 0 {
            true
        } else {
            proof {
                assert(decreases_to!(parent => parent->Object_0));
            }
            spec_entries_fit(parent, entries.drop_last(), quoted) && spec_is_ident_text(entries.last().0)
                && spec_fits_literal(entries.last().1, quoted)
        }
    } else {
        false
    }
}

/// Whether `c` may follow a rendered value inside a larger literal.
pub open spec fn spec_value_follower(post: Seq<char>) -> bool {
    post.len() == 0 || post[0] == ',' || post[0] == ']' || post[0] == '}'
}

pub proof fn lemma_skip_ws_to(s: Seq<char>, k: int, e: int)
    requires
        0 <= k <= e < s.len(),
        forall|m: int| k <= m < e ==> spec_is_whitespace(#[trigger] s[m]),
        !spec_is_whitespace(s[e]),
    ensures
        spec_skip_ws(s, k) == e,
    decreases e - k,
{
    if k < e {
        lemma_skip_ws_to(s, k + 1, e);
    }
}

pub proof fn lemma_skip_ws_end(s: Seq<char>)
    ensures
        spec_skip_ws(s, s.len() as int) == s.len(),
{
}

pub proof fn lemma_ident_end_at(s: Seq<char>, j: int, e: int)
    requires
        0 <= j <= e <= s.len(),
        forall|m: int| j <= m < e ==> spec_is_ident_continue(#[trigger] s[m]),
        e == s.len() || !spec_is_ident_continue(s[e]),
    ensures
        spec_ident_end(s, j) == e,
    decreases e - j,
{
    if j < e {
        lemma_ident_end_at(s, j + 1, e);
    }
}

proof fn lemma_digits_end_at(s: Seq<char>, j: int, e: int)
    requires
        0 <= j <= e <= s.len(),
        forall|m: int| j <= m < e ==> spec_is_ascii_digit(#[trigger] s[m]),
        e == s.len() || !spec_is_ascii_digit(s[e]),
    ensures
        spec_digits_end(s, j) == e,
    decreases e - j,
{
    if j < e {
        lemma_digits_end_at(s, j + 1, e);
    }
}

proof fn lemma_digits_value_agree(a: Seq<char>, b: Seq<char>, j: int, e: int)
    requires
        forall|m: int| j <= m < e ==> a[m] == b[m],
    ensures
        spec_digits_value(a, j, e) == spec_digits_value(b, j, e),
    decreases e - j,
{
    if e > j {
        lemma_digits_value_agree(a, b, j, e - 1);
    }
}

proof fn lemma_string_body_suffix(t: Seq<char>, post: Seq<char>, j: int, q: char)
    requires
        0 <= j,
        spec_string_body(t, j, q) is Ok,
    ensures
        spec_string_body(t + post, j, q) == spec_string_body(t, j, q),
    decreases t.len() - j,
{
    let s = t + post;
    assert(j < t.len());
    assert(s[j] == t[j]);
    if t[j] == q {
    } else if t[j] == '\\' {
        assert(j + 1 < t.len());
        assert(s[j + 1] == t[j + 1]);
        lemma_string_body_suffix(t, post, j + 2, q);
    } else {
        lemma_string_body_suffix(t, post, j + 1, q);
    }
}

proof fn lemma_join_values_front(items: Seq<ConstView>)
    requires
        items.len() >= 2,
    ensures
        spec_join_values(items) == spec_rhai_literal(items[0]) + seq![',', ' '] + spec_join_values(items.drop_first()),
    decreases items.len(),
{
    let dl = items.drop_last();
    let df = items.drop_first();
    assert(spec_join_values(items) == spec_join_values(dl) + seq![',', ' '] + spec_rhai_literal(items.last()));
    if items.len() == 2 {
        assert(dl.len() == 1 && dl[0] == items[0]);
        assert(df.len() == 1 && df[0] == items[1]);
        assert(spec_join_values(dl) == spec_rhai_literal(items[0]));
        assert(spec_join_values(df) == spec_rhai_literal(items[1]));
    } else {
        lemma_join_values_front(dl);
        assert(dl.drop_first() =~= df.drop_last());
        assert(dl[0] == items[0]);
        assert(df.last() == items.last());
        assert(spec_join_values(df) == spec_join_values(df.drop_last()) + seq![',', ' '] + spec_rhai_literal(
            df.last(),
        ));
        assert(spec_join_values(items) =~= spec_rhai_literal(items[0]) + seq![',', ' '] + spec_join_values(
            df,
        ));
    }
}

proof fn lemma_join_entries_front(entries: Seq<(Seq<char>, ConstView)>)
    requires
        entries.len() >= 2,
    ensures
        spec_join_entries(entries) == entries[0].0 + seq![':', ' '] + spec_rhai_literal(entries[0].1) + seq![',', ' ']
            + spec_join_entries(entries.drop_first()),
    decreases entries.len(),
{
    let dl = entries.drop_last();
    let df = entries.drop_first();
    assert(spec_join_entries(entries) == spec_join_entries(dl) + seq![',', ' '] + entries.last().0 + seq![':', ' ']
        + spec_rhai_literal(entries.last().1));
    if entries.len() == 2 {
        assert(dl.len() == 1 && dl[0] == entries[0]);
        assert(df.len() == 1 && df[0] == entries[1]);
        assert(spec_join_entries(dl) == entries[0].0 + seq![':', ' '] + spec_rhai_literal(entries[0].1));
        assert(spec_join_entries(df) == entries[1].0 + seq![':', ' '] + spec_rhai_literal(entries[1].1));
        assert(spec_join_entries(entries) =~= entries[0].0 + seq![':', ' '] + spec_rhai_literal(entries[0].1)
            + seq![',', ' '] + spec_join_entries(df));
    } else {
        lemma_join_entries_front(dl);
        assert(dl.drop_first() =~= df.drop_last());
        assert(dl[0] == entries[0]);
        assert(df.last() == entries.last());
        assert(spec_join_entries(df) == spec_join_entries(df.drop_last()) + seq![',', ' '] + df.last().0 + seq![
            ':',
            ' ',
        ] + spec_rhai_literal(df.last().1));
        assert(spec_join_entries(entries) =~= entries[0].0 + seq![':', ' '] + spec_rhai_literal(entries[0].1)
            + seq![',', ' '] + spec_join_entries(df));
    }
}

proof fn lemma_literal_start(v: ConstView)
    requires
        spec_reads_back(v),
    ensures
        spec_rhai_literal(v).len() >= 1,
        !spec_is_whitespace(spec_rhai_literal(v)[0]),
        spec_rhai_literal(v)[0] != ']',
        spec_rhai_literal(v)[0] != '}',
{
    match v {
        ConstView::Integer(n) => {
            if n < 0 {
                lemma_dec_digits((-n) as nat);
            } else {
                lemma_dec_digits(n as nat);
                assert(spec_is_ascii_digit(spec_dec_digits(n as nat)[0]));
            }
        },
        _ => {},
    }
}

pub proof fn lemma_items_each(parent: ConstView, items: Seq<ConstView>, q: int, quoted: bool)
    requires
        spec_items_fit(parent, items, quoted),
        0 <= q < items.len(),
    ensures
        spec_fits_literal(items[q], quoted),
    decreases items.len(),
{
    if q < items.len() - 1 {
        let dl = items.drop_last();
        assert(spec_items_fit(parent, dl, quoted));
        lemma_items_each(parent, dl, q, quoted);
        assert(dl[q] == items[q]);
    }
}

pub proof fn lemma_entries_each(parent: ConstView, entries: Seq<(Seq<char>, ConstView)>, q: int, quoted: bool)
    requires
        spec_entries_fit(parent, entries, quoted),
        0 <= q < entries.len(),
    ensures
        spec_fits_literal(entries[q].1, quoted),
        spec_is_ident_text(entries[q].0),
    decreases entries.len(),
{
    if q < entries.len() - 1 {
        let dl = entries.drop_last();
        assert(spec_entries_fit(parent, dl, quoted));
        lemma_entries_each(parent, dl, q, quoted);
        assert(dl[q] == entries[q]);
    }
}

/// Where a literal `lit` stands at `pre.len()` in `s`, after white space
/// from `k`, the parser starts reading it there.
proof fn lemma_value_start(s: Seq<char>, pre: Seq<char>, lit: Seq<char>, post: Seq<char>, k: int)
    requires
        s == pre + lit + post,
        lit.len() >= 1,
        !spec_is_whitespace(lit[0]),
        0 <= k <= pre.len(),
        forall|m: int| k <= m < pre.len() ==> spec_is_whitespace(#[trigger] pre[m]),
    ensures
        spec_skip_ws(s, k) == pre.len(),
        forall|m: int| 0 <= m < lit.len() ==> #[trigger] s[pre.len() + m] == lit[m],
        pre.len() + lit.len() == s.len() || s[(pre.len() + lit.len()) as int] == post[0],
{
    let i = pre.len() as int;
    assert(s[i] == lit[0]);
    assert forall|m: int| k <= m < i implies spec_is_whitespace(#[trigger] s[m]) by {
        assert(s[m] == pre[m]);
    }
    lemma_skip_ws_to(s, k, i);
}

proof fn lemma_bool_reads_back(b: bool, s: Seq<char>, pre: Seq<char>, post: Seq<char>, env: Map<Seq<char>, ConstView>, r: ResolverView, blocked: Set<Seq<char>>)
    requires
        s == pre + spec_rhai_literal(ConstView::Bool(b)) + post,
        spec_value_follower(post),
    ensures
        spec_parse_path(s, pre.len() as int) == Ok::<(Seq<Seq<char>>, int), ErrorView>(
            (seq![spec_rhai_literal(ConstView::Bool(b))], (pre.len() + spec_rhai_literal(ConstView::Bool(b)).len()) as int),
        ),
        spec_resolve_reference(seq![spec_rhai_literal(ConstView::Bool(b))], env, r, blocked) == Ok::<ConstView, ErrorView>(
            ConstView::Bool(b),
        ),
{
    reveal_strlit("true");
    reveal_strlit("false");
    let lit = spec_rhai_literal(ConstView::Bool(b));
    let i = pre.len() as int;
    let end = (i + lit.len()) as int;
    assert forall|m: int| 0 <= m < lit.len() implies #[trigger] s[i + m] == lit[m] by {}
    assert(end == s.len() || s[end] == post[0]);
    assert forall|m: int| i + 1 <= m < end implies spec_is_ident_continue(#[trigger] s[m]) by {
        assert(s[m] == lit[m - i]);
    }
    lemma_ident_end_at(s, i + 1, end);
    assert(s.subrange(i, end) =~= lit);
    assert(spec_is_ident_start(s[i]));
    assert(spec_parse_ident(s, i) == Ok::<(Seq<char>, int), ErrorView>((lit, end)));
    assert(spec_path_rest(s, end, seq![lit]) == Ok::<(Seq<Seq<char>>, int), ErrorView>((seq![lit], end)));
    assert(seq![lit].len() == 1 && seq![lit][0] == lit);
    if b {
        assert(lit =~= "true"@);
    } else {
        assert(lit =~= "false"@);
        assert(lit != "true"@);
    }
}

proof fn lemma_int_reads_back(n: int, s: Seq<char>, pre: Seq<char>, post: Seq<char>)
    requires
        i64::MIN <= n <= i64::MAX,
        s == pre + spec_rhai_literal(ConstView::Integer(n)) + post,
        spec_value_follower(post),
    ensures
        spec_parse_number(s, pre.len() as int) == Ok::<(ConstView, int), ErrorView>(
            (ConstView::Integer(n), (pre.len() + spec_rhai_literal(ConstView::Integer(n)).len()) as int),
        ),
{
    let lit = spec_rhai_literal(ConstView::Integer(n));
    let i = pre.len() as int;
    let end = (i + lit.len()) as int;
    let m: nat = if n < 0 {
        (-n) as nat
    } else {
        n as nat
    };
    let t = spec_dec_digits(m);
    lemma_dec_digits(m);
    let j: int = if n < 0 {
        i + 1
    } else {
        i
    };
    let p = if n < 0 {
        pre + seq!['-']
    } else {
        pre
    };
    assert(lit =~= if n < 0 {
        seq!['-'] + t
    } else {
        t
    });
    assert(s =~= p + (t + post));
    assert(p.len() == j);
    assert(end == j + t.len());
    assert forall|q: int| j <= q < end implies spec_is_ascii_digit(#[trigger] s[q]) by {
        assert(s[q] == (t + post)[q - j]);
        assert((t + post)[q - j] == t[q - j]);
    }
    assert(end == s.len() || s[end] == post[0]);
    lemma_digits_end_at(s, j, end);
    lemma_digits_value_shift(p, t + post, t.len() as int);
    assert forall|q: int| 0 <= q < t.len() implies (t + post)[q] == t[q] by {}
    lemma_digits_value_agree(t + post, t, 0, t.len() as int);
    assert(spec_digits_value(s, j, end) == m);
    if n < 0 {
        assert(s[i] == '-');
    } else {
        assert(s[i] == t[0]);
        assert(spec_is_ascii_digit(t[0]));
    }
}

proof fn lemma_string_reads_back(x: Seq<char>, s: Seq<char>, pre: Seq<char>, post: Seq<char>)
    requires
        spec_printable_ascii(x),
        spec_debug_str(x) == seq!['"'] + spec_ascii_debug_body(x) + seq!['"'],
        s == pre + spec_rhai_literal(ConstView::String(x)) + post,
    ensures
        spec_parse_string(s, pre.len() as int) == Ok::<(Seq<char>, int), ErrorView>(
            (x, (pre.len() + spec_rhai_literal(ConstView::String(x)).len()) as int),
        ),
{
    let lit = spec_rhai_literal(ConstView::String(x));
    let i = pre.len() as int;
    let body = spec_ascii_debug_body(x);
    let p = pre + seq!['"'];
    lemma_ascii_body_reads_back(p, x);
    assert(p + body + seq!['"'] =~= pre + lit);
    assert(s =~= (p + body + seq!['"']) + post);
    lemma_string_body_suffix(p + body + seq!['"'], post, i + 1, '"');
    assert(s[i] == '"');
}

proof fn lemma_value_reads_back(
    v: ConstView,
    pre: Seq<char>,
    k: int,
    post: Seq<char>,
    env: Map<Seq<char>, ConstView>,
    r: ResolverView,
    blocked: Set<Seq<char>>,
)
    requires
        spec_reads_back(v),
        0 <= k <= pre.len(),
        forall|m: int| k <= m < pre.len() ==> spec_is_whitespace(#[trigger] pre[m]),
        spec_value_follower(post),
    ensures
        spec_parse_value(pre + spec_rhai_literal(v) + post, k, env, r, blocked) == Ok::<(ConstView, int), ErrorView>(
            (v, (pre.len() + spec_rhai_literal(v).len()) as int),
        ),
    decreases v, 2int, 0int,
{
    let lit = spec_rhai_literal(v);
    let s = pre + lit + post;
    let i = pre.len() as int;
    lemma_literal_start(v);
    lemma_value_start(s, pre, lit, post, k);
    assert(s[i] == lit[0]);
    match v {
        ConstView::Bool(b) => {
            lemma_bool_reads_back(b, s, pre, post, env, r, blocked);
        },
        ConstView::Integer(n) => {
            lemma_int_reads_back(n, s, pre, post);
        },
        ConstView::String(x) => {
            lemma_string_reads_back(x, s, pre, post);
        },
        ConstView::Array(items) => {
            let inner = spec_join_values(items);
            assert(lit == seq!['['] + inner + seq![']']);
            if items.len() == 0 {
                assert(s[i + 1] == lit[1]);
                lemma_skip_ws_to(s, i + 1, i + 1);
                assert(items =~= Seq::<ConstView>::empty());
            } else {
                let pre2 = pre + seq!['['];
                assert(s =~= pre2 + inner + seq![']'] + post);
                assert(items.skip(0) =~= items);
                assert(items.take(0) =~= Seq::<ConstView>::empty());
                lemma_items_read_back(v, items, 0, pre2, i + 1, post, env, r, blocked);
            }
        },
        ConstView::Object(entries) => {
            let inner = spec_join_entries(entries);
            assert(lit == seq!['#', '{'] + inner + seq!['}']);
            assert(s[i + 1] == lit[1]);
            if entries.len() == 0 {
                assert(s[i + 2] == lit[2]);
                lemma_skip_ws_to(s, i + 2, i + 2);
                assert(entries =~= Seq::<(Seq<char>, ConstView)>::empty());
            } else {
                let pre2 = pre + seq!['#', '{'];
                assert(s =~= pre2 + inner + seq!['}'] + post);
                assert(entries.skip(0) =~= entries);
                assert(entries.take(0) =~= Seq::<(Seq<char>, ConstView)>::empty());
                lemma_entries_read_back(v, entries, 0, pre2, i + 2, post, env, r, blocked);
            }
        },
        _ => {},
    }
}

proof fn lemma_array_step(
    s: Seq<char>,
    k: int,
    k1: int,
    acc: Seq<ConstView>,
    v: ConstView,
    e: int,
    env: Map<Seq<char>, ConstView>,
    r: ResolverView,
    blocked: Set<Seq<char>>,
)
    requires
        0 <= k <= k1 < e < s.len(),
        spec_skip_ws(s, k) == k1,
        s[k1] != ']',
        spec_parse_value(s, k1, env, r, blocked) == Ok::<(ConstView, int), ErrorView>((v, e)),
        s[e] == ']' || s[e] == ',',
    ensures
        spec_array_items(s, k, acc, env, r, blocked) == if s[e] == ']' {
            Ok::<(ConstView, int), ErrorView>((ConstView::Array(acc.push(v)), e + 1))
        } else {
            spec_array_items(s, e + 1, acc.push(v), env, r, blocked)
        },
{
    lemma_skip_ws_to(s, e, e);
}

proof fn lemma_object_step(
    s: Seq<char>,
    k: int,
    kb: int,
    acc: Seq<(Seq<char>, ConstView)>,
    key: Seq<char>,
    ke: int,
    v: ConstView,
    e: int,
    env: Map<Seq<char>, ConstView>,
    r: ResolverView,
    blocked: Set<Seq<char>>,
)
    requires
        0 <= k <= kb < ke,
        ke + 1 < e < s.len(),
        spec_skip_ws(s, k) == kb,
        s[kb] != '}',
        spec_parse_object_key(s, kb) == Ok::<(Seq<char>, int), ErrorView>((key, ke)),
        s[ke] == ':',
        spec_parse_value(s, ke + 1, env, r, blocked) == Ok::<(ConstView, int), ErrorView>((v, e)),
        s[e] == '}' || s[e] == ',',
    ensures
        spec_object_entries(s, k, acc, env, r, blocked) == if s[e] == '}' {
            Ok::<(ConstView, int), ErrorView>((ConstView::Object(spec_entries_insert(acc, key, v)), e + 1))
        } else {
            spec_object_entries(s, e + 1, spec_entries_insert(acc, key, v), env, r, blocked)
        },
{
    lemma_skip_ws_to(s, ke, ke);
    lemma_skip_ws_to(s, e, e);
}

proof fn lemma_key_reads_back(s: Seq<char>, kb: int, key: Seq<char>)
    requires
        spec_is_ident_text(key),
        0 <= kb,
        kb + key.len() < s.len(),
        forall|m: int| 0 <= m < key.len() ==> #[trigger] s[kb + m] == key[m],
        s[kb + key.len()] == ':',
    ensures
        spec_parse_object_key(s, kb) == Ok::<(Seq<char>, int), ErrorView>((key, kb + key.len())),
        s[kb] != '}',
{
    let ke = kb + key.len();
    assert(s[kb + 0] == key[0]);
    assert forall|m: int| kb + 1 <= m < ke implies spec_is_ident_continue(#[trigger] s[m]) by {
        assert(s[kb + (m - kb)] == key[m - kb]);
    }
    lemma_ident_end_at(s, kb + 1, ke);
    assert forall|m: int| 0 <= m < key.len() implies #[trigger] s.subrange(kb, ke)[m] == key[m] by {
        assert(s[kb + m] == key[m]);
    }
    assert(s.subrange(kb, ke) =~= key);
    lemma_skip_ws_to(s, kb, kb);
}

proof fn lemma_insert_last(entries: Seq<(Seq<char>, ConstView)>, i: int)
    requires
        0 <= i < entries.len(),
        forall|q: int, w: int| 0 <= q < w < entries.len() ==> name_lt(#[trigger] entries[q].0, #[trigger] entries[w].0),
    ensures
        spec_entries_insert(entries.take(i), entries[i].0, entries[i].1) == entries.take(i + 1),
{
    let acc = entries.take(i);
    let key = entries[i].0;
    assert forall|q: int| 0 <= q < acc.len() implies name_lt(#[trigger] spec_keys_of(acc)[q], key) by {
        assert(spec_keys_of(acc)[q] == entries[q].0);
        assert(name_lt(entries[q].0, entries[i].0));
    }
    lemma_insert_pos(spec_keys_of(acc), key, acc.len() as int);
    assert(spec_entries_insert(acc, key, entries[i].1) =~= entries.take(i + 1));
}

proof fn lemma_items_read_back(
    parent: ConstView,
    items: Seq<ConstView>,
    i: int,
    pre: Seq<char>,
    k: int,
    post: Seq<char>,
    env: Map<Seq<char>, ConstView>,
    r: ResolverView,
    blocked: Set<Seq<char>>,
)
    requires
        parent == ConstView::Array(items),
        spec_reads_back(parent),
        0 <= i < items.len(),
        0 <= k <= pre.len(),
        forall|m: int| k <= m < pre.len() ==> spec_is_whitespace(#[trigger] pre[m]),
        spec_value_follower(post),
    ensures
        spec_array_items(
            pre + spec_join_values(items.skip(i)) + seq![']'] + post,
            k,
            items.take(i),
            env,
            r,
            blocked,
        ) == Ok::<(ConstView, int), ErrorView>(
            (parent, (pre.len() + spec_join_values(items.skip(i)).len() + 1) as int),
        ),
    decreases parent, 1int, items.len() - i,
{
    let rest = items.skip(i);
    let v = items[i];
    let s = pre + spec_join_values(rest) + seq![']'] + post;
    let lv = spec_rhai_literal(v);
    assert(rest[0] == v);
    lemma_items_each(parent, items, i, true);
    lemma_literal_start(v);
    assert(decreases_to!(parent => parent->Array_0));
    assert(decreases_to!(items => items[i]));
    let e = (pre.len() + lv.len()) as int;
    let tail = rest.drop_first();
    let post2 = if rest.len() == 1 {
        seq![']'] + post
    } else {
        seq![',', ' '] + spec_join_values(tail) + seq![']'] + post
    };
    if rest.len() == 1 {
        assert(spec_join_values(rest) == lv);
    } else {
        lemma_join_values_front(rest);
    }
    assert(s =~= pre + lv + post2);
    let k1 = pre.len() as int;
    lemma_value_reads_back(v, pre, k1, post2, env, r, blocked);
    lemma_value_start(s, pre, lv, post2, k);
    assert(spec_skip_ws(s, k) == k1);
    assert(s[k1] == lv[0]);
    assert(spec_parse_value(s, k1, env, r, blocked) == Ok::<(ConstView, int), ErrorView>((v, e)));
    assert(e == s.len() || s[e] == post2[0]);
    assert(s[e] == post2[0]);
    lemma_array_step(s, k, k1, items.take(i), v, e, env, r, blocked);
    if rest.len() == 1 {
        assert(s[e] == ']');
        assert(items.take(i).push(v) =~= items);
        assert(s.len() == e + 1 + post.len());
    } else {
        assert(tail =~= items.skip(i + 1));
        assert(s[e] == ',');
        let pre3 = pre + lv + seq![',', ' '];
        assert(s =~= pre3 + spec_join_values(tail) + seq![']'] + post);
        assert(pre3[e + 1] == ' ');
        assert(items.take(i).push(v) =~= items.take(i + 1));
        lemma_items_read_back(parent, items, i + 1, pre3, e + 1, post, env, r, blocked);
    }
}

/// One entry of an object literal: the key, the `:`, the value and what
/// follows it.
#[verifier::rlimit(60)]
#[verifier::spinoff_prover]
proof fn lemma_entry_step(
    parent: ConstView,
    entries: Seq<(Seq<char>, ConstView)>,
    i: int,
    pre: Seq<char>,
    k: int,
    post: Seq<char>,
    env: Map<Seq<char>, ConstView>,
    r: ResolverView,
    blocked: Set<Seq<char>>,
) -> (e: int)
    requires
        parent == ConstView::Object(entries),
        spec_reads_back(parent),
        0 <= i < entries.len(),
        0 <= k <= pre.len(),
        forall|m: int| k <= m < pre.len() ==> spec_is_whitespace(#[trigger] pre[m]),
        spec_value_follower(post),
    ensures
        e == pre.len() + entries[i].0.len() + 2 + spec_rhai_literal(entries[i].1).len(),
        entries.skip(i).len() == 1 ==> spec_join_entries(entries.skip(i)).len() + pre.len() == e,
        entries.skip(i).len() == 1 ==> spec_object_entries(
            pre + spec_join_entries(entries.skip(i)) + seq!['}'] + post,
            k,
            entries.take(i),
            env,
            r,
            blocked,
        ) == Ok::<(ConstView, int), ErrorView>((parent, e + 1)),
        entries.skip(i).len() > 1 ==> pre + spec_join_entries(entries.skip(i)) + seq!['}'] + post == (pre
            + entries[i].0 + seq![':', ' '] + spec_rhai_literal(entries[i].1) + seq![',', ' ']) + spec_join_entries(
            entries.skip(i + 1),
        ) + seq!['}'] + post,
        entries.skip(i).len() > 1 ==> spec_object_entries(
            pre + spec_join_entries(entries.skip(i)) + seq!['}'] + post,
            k,
            entries.take(i),
            env,
            r,
            blocked,
        ) == spec_object_entries(
            pre + spec_join_entries(entries.skip(i)) + seq!['}'] + post,
            e + 1,
            entries.take(i + 1),
            env,
            r,
            blocked,
        ),
        entries.skip(i).len() > 1 ==> spec_join_entries(entries.skip(i)).len() == entries[i].0.len() + 2
            + spec_rhai_literal(entries[i].1).len() + 2 + spec_join_entries(entries.skip(i + 1)).len(),
    decreases parent, 0int, 0int,
{
    let rest = entries.skip(i);
    let key = entries[i].0;
    let v = entries[i].1;
    let s = pre + spec_join_entries(rest) + seq!['}'] + post;
    let lv = spec_rhai_literal(v);
    assert(rest[0] == entries[i]);
    lemma_entries_each(parent, entries, i, true);
    lemma_literal_start(v);
    assert(decreases_to!(parent => parent->Object_0));
    assert(decreases_to!(entries => entries[i]));
    assert(decreases_to!(entries[i] => entries[i].1));
    let kb = pre.len() as int;
    let ke = (kb + key.len()) as int;
    let e = (ke + 2 + lv.len()) as int;
    let head = key + seq![':', ' '] + lv;
    let tail = rest.drop_first();
    let post2 = if rest.len() == 1 {
        seq!['}'] + post
    } else {
        seq![',', ' '] + spec_join_entries(tail) + seq!['}'] + post
    };
    if rest.len() == 1 {
        assert(spec_join_entries(rest) == head);
    } else {
        lemma_join_entries_front(rest);
        assert(spec_join_entries(rest) == head + seq![',', ' '] + spec_join_entries(tail));
        assert(tail =~= entries.skip(i + 1));
    }
    let pre_v = pre + key + seq![':', ' '];
    assert(s =~= pre + key + (seq![':', ' '] + lv + post2));
    assert(s =~= pre_v + lv + post2);
    lemma_value_start(s, pre, key, seq![':', ' '] + lv + post2, k);
    assert(s[ke] == ':');
    lemma_key_reads_back(s, kb, key);
    assert(pre_v[ke + 1] == ' ');
    lemma_value_reads_back(v, pre_v, ke + 1, post2, env, r, blocked);
    lemma_value_start(s, pre_v, lv, post2, ke + 1);
    assert(s[e] == post2[0]);
    lemma_object_step(s, k, kb, entries.take(i), key, ke, v, e, env, r, blocked);
    assert(forall|q: int, w: int| 0 <= q < w < entries.len() ==> name_lt(#[trigger] entries[q].0, #[trigger] entries[w].0));
    lemma_insert_last(entries, i);
    if rest.len() == 1 {
        assert(entries.take(i + 1) =~= entries);
    } else {
        assert(s =~= (pre + head + seq![',', ' ']) + spec_join_entries(tail) + seq!['}'] + post);
    }
    e
}

proof fn lemma_entries_read_back(
    parent: ConstView,
    entries: Seq<(Seq<char>, ConstView)>,
    i: int,
    pre: Seq<char>,
    k: int,
    post: Seq<char>,
    env: Map<Seq<char>, ConstView>,
    r: ResolverView,
    blocked: Set<Seq<char>>,
)
    requires
        parent == ConstView::Object(entries),
        spec_reads_back(parent),
        0 <= i < entries.len(),
        0 <= k <= pre.len(),
        forall|m: int| k <= m < pre.len() ==> spec_is_whitespace(#[trigger] pre[m]),
        spec_value_follower(post),
    ensures
        spec_object_entries(
            pre + spec_join_entries(entries.skip(i)) + seq!['}'] + post,
            k,
            entries.take(i),
            env,
            r,
            blocked,
        ) == Ok::<(ConstView, int), ErrorView>(
            (parent, (pre.len() + spec_join_entries(entries.skip(i)).len() + 1) as int),
        ),
    decreases parent, 1int, entries.len() - i,
{
    let e = lemma_entry_step(parent, entries, i, pre, k, post, env, r, blocked);
    if entries.skip(i).len() > 1 {
        let pre3 = pre + entries[i].0 + seq![':', ' '] + spec_rhai_literal(entries[i].1) + seq![',', ' '];
        assert(pre3.len() == e + 2);
        assert(pre3[e + 1] == ' ');
        lemma_entries_read_back(parent, entries, i + 1, pre3, e + 1, post, env, r, blocked);
    }
}

/// Rendering a const value as a literal and parsing the literal back gives
/// the value, whatever the consts in scope: for booleans, integers, strings
/// of printable ASCII (as `{:?}` renders them), and arrays and objects of
/// such values whose object keys are identifiers, in ascending order.
pub proof fn law_literal_round_trip(
    v: ConstView,
    env: Map<Seq<char>, ConstView>,
    r: ResolverView,
    blocked: Set<Seq<char>>,
)
    requires
        spec_reads_back(v),
    ensures
        spec_parse_const_value(spec_rhai_literal(v), env, r, blocked, None) == Ok::<ConstView, ErrorView>(v),
{
    let lit = spec_rhai_literal(v);
    let e = Seq::<char>::empty();
    assert(e + lit + e =~= lit);
    lemma_value_reads_back(v, e, 0, e, env, r, blocked);
    lemma_skip_ws_end(lit);
}

/// A reference to a local const, rewritten into the literal of the const's
/// value, evaluates back to that value: the rewrite puts the literal in the
/// name's place, and the literal parses as the value.
pub proof fn law_const_reference_rewrites_to_its_value(
    name: Seq<char>,
    env: Map<Seq<char>, ConstView>,
    r: ResolverView,
    blocked: Set<Seq<char>>,
    shadowed: Set<Seq<char>>,
)
    requires
        spec_is_ident_text(name),
        env.dom().contains(name),
        !shadowed.contains(name),
        spec_reads_back(env[name]),
    ensures
        spec_rewrite_consts_from(name, 0, env, r, blocked, shadowed) == Ok::<Seq<char>, ErrorView>(
            spec_rhai_literal(env[name]),
        ),
        spec_parse_const_value(spec_rhai_literal(env[name]), env, r, blocked, None) == Ok::<ConstView, ErrorView>(
            env[name],
        ),
{
    let n = name.len() as int;
    lemma_ident_end_at(name, 1, n);
    assert(spec_reference_path(name, 0) == (n, seq![name.subrange(0, n)]));
    assert(name.subrange(0, n) =~= name);
    assert(spec_prev_non_ws(name, 0) is None);
    assert(spec_is_property_access(name, 0) == false);
    assert(spec_next_non_ws(name, n) is None);
    assert(spec_is_map_key(name, n) == false);
    assert(spec_env_get(env, name) == Some(env[name]));
    assert(spec_const_piece(name, 0, env, r, blocked, shadowed) == Ok::<Seq<char>, ErrorView>(
        spec_rhai_literal(env[name]),
    ));
    assert(spec_rewrite_consts_from(name, n, env, r, blocked, shadowed) == Ok::<Seq<char>, ErrorView>(
        Seq::empty(),
    ));
    assert(spec_rhai_literal(env[name]) + Seq::<char>::empty() =~= spec_rhai_literal(env[name]));
    law_literal_round_trip(env[name], env, r, blocked);
}

/// Printable ASCII text is ASCII.
pub proof fn lemma_printable_is_ascii(s: Seq<char>)
    requires
        spec_printable_ascii(s),
    ensures
        spec_is_ascii(s),
{
    assert forall|i: int| 0 <= i < s.len() implies (s[i] as nat) < 128 by {
        assert(' ' <= s[i] && s[i] <= '~');
    }
}

/// The first items of an array fit, one more at a time.
pub proof fn lemma_items_fit_step(parent: ConstView, items: Seq<ConstView>, i: int, quoted: bool)
    requires
        parent == ConstView::Array(items),
        0 <= i <= items.len(),
        i == 0 || spec_items_fit(parent, items.take(i), quoted),
    ensures
        spec_items_fit(parent, items.take(i), quoted),
        i < items.len() && spec_fits_literal(items[i], quoted) ==> spec_items_fit(parent, items.take(i + 1), quoted),
        i == items.len() ==> spec_fits_literal(parent, quoted),
{
    if i == 0 {
        assert(items.take(0) =~= Seq::<ConstView>::empty());
        if items.len() == 0 {
            assert(items =~= items.take(0));
        }
    }
    if i < items.len() {
        let t = items.take(i + 1);
        assert(t.drop_last() =~= items.take(i));
        assert(t.last() == items[i]);
        if i + 1 == items.len() {
            assert(t =~= items);
        } else {
            assert(t =~= parent->Array_0.take(t.len() as int));
        }
    }
    if i == items.len() {
        assert(items.take(i) =~= items);
    }
}

/// The first entries of an object fit, one more at a time.
pub proof fn lemma_entries_fit_step(
    parent: ConstView,
    entries: Seq<(Seq<char>, ConstView)>,
    i: int,
    quoted: bool,
)
    requires
        parent == ConstView::Object(entries),
        0 <= i <= entries.len(),
        i == 0 || spec_entries_fit(parent, entries.take(i), quoted),
        i == entries.len() ==> forall|q: int, w: int| 0 <= q < w < entries.len() ==> name_lt(
            #[trigger] entries[q].0,
            #[trigger] entries[w].0,
        ),
    ensures
        spec_entries_fit(parent, entries.take(i), quoted),
        i < entries.len() && spec_fits_literal(entries[i].1, quoted) && spec_is_ident_text(entries[i].0)
            ==> spec_entries_fit(parent, entries.take(i + 1), quoted),
        i == entries.len() ==> spec_fits_literal(parent, quoted),
{
    if i == 0 {
        assert(entries.take(0) =~= Seq::<(Seq<char>, ConstView)>::empty());
        if entries.len() == 0 {
            assert(entries =~= entries.take(0));
        }
    }
    if i < entries.len() {
        let t = entries.take(i + 1);
        assert(t.drop_last() =~= entries.take(i));
        assert(t.last() == entries[i]);
        if i + 1 == entries.len() {
            assert(t =~= entries);
        } else {
            assert(t =~= parent->Object_0.take(t.len() as int));
        }
    }
    if i == entries.len() {
        assert(entries.take(i) =~= entries);
    }
}

} // verus!
