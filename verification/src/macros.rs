//! Macro parameter values: how an invocation's attribute becomes the value
//! a macro parameter of a given type is bound to.
use vstd::prelude::*;
use crate::classify::str_is;
use crate::errors::{ErrorView, FormIssue, FormIssueView, ScriptLangError};
use crate::form::{Form, FormItem, error_at, spec_error_at};
use crate::text::{chars_of, spec_is_ascii_digit};

verus! {

/// A compile-time value a macro works with.
#[derive(Debug, PartialEq, Eq)]
pub enum MacroValue {
    Nil,
    Bool(bool),
    Int(i64),
    String(String),
    Expr(String),
    AstItems(Vec<FormItem>),
    Keyword(Vec<(String, MacroValue)>),
    List(Vec<MacroValue>),
}

/// The type of a macro parameter.
#[derive(Clone, Copy, Debug, PartialEq, Eq)]
pub enum MacroParamType {
    /// Expression source.
    Expr,
    /// Child forms.
    Ast,
    /// A string.
    String,
    /// A boolean.
    Bool,
    /// An integer.
    Int,
    /// The remaining attributes, as key-value pairs.
    Keyword,
    /// A module reference.
    Module,
}

/// The value of a run of decimal digits.
pub open spec fn spec_digits_value(d: Seq<char>) -> int
    decreases d.len(),
{
    if d.len() == 0 {
        0
    } else {
        10 * spec_digits_value(d.drop_last()) + (d.last() as int - '0' as int)
    }
}

pub open spec fn spec_all_digits(d: Seq<char>) -> bool {
    forall|i: int| 0 <= i < d.len() ==> spec_is_ascii_digit(d[i])
}

/// The `i64` a text reads as in decimal, as `str::parse` reads it: an
/// optional `+` or `-`, then one or more ASCII digits, in range.
pub open spec fn spec_parse_i64(s: Seq<char>) -> Option<int> {
    let signed = s.len() > 0 && (s[0] == '+' || s[0] == '-');
    let digits = if signed { s.drop_first() } else { s };
    if digits.len() == 0 || !spec_all_digits(digits) {
        None
    } else {
        let v = if signed && s[0] == '-' { -spec_digits_value(digits) } else { spec_digits_value(digits) };
        if i64::MIN <= v <= i64::MAX {
            Some(v)
        } else {
            None
        }
    }
}

pub proof fn lemma_digits_value_nonneg(d: Seq<char>, j: int)
    requires
        0 <= j <= d.len(),
        spec_all_digits(d),
    ensures
        spec_digits_value(d.take(j)) >= 0,
    decreases j,
{
    if j > 0 {
        assert(d.take(j).drop_last() =~= d.take(j - 1));
        assert(d.take(j).last() == d[j - 1]);
        lemma_digits_value_nonneg(d, j - 1);
    }
}

pub proof fn lemma_digits_value_grows(d: Seq<char>, i: int, j: int)
    requires
        0 <= i <= j <= d.len(),
        spec_all_digits(d),
    ensures
        spec_digits_value(d.take(i)) <= spec_digits_value(d.take(j)),
    decreases j,
{
    if i < j {
        lemma_digits_value_grows(d, i, j - 1);
        lemma_digits_value_nonneg(d, j - 1);
        assert(d.take(j).drop_last() =~= d.take(j - 1));
        assert(d.take(j).last() == d[j - 1]);
    }
}

/// Reads a decimal `i64` as `str::parse` does.
pub fn parse_i64(text: &str) -> (r: Option<i64>)
    ensures
        match r {
            Some(v) => spec_parse_i64(text@) == Some(v as int),
            None => spec_parse_i64(text@) is None,
        },
{
    let chars = chars_of(text);
    let signed = chars.len() > 0 && (chars[0] == '+' || chars[0] == '-');
    let negative = signed && chars[0] == '-';
    let start: usize = if signed { 1 } else { 0 };
    let ghost digits = if signed { text@.drop_first() } else { text@ };
    if chars.len() == start {
        return None;
    }
    let limit: u64 = 9223372036854775808;
    let mut acc: u64 = 0;
    let mut i = start;
    while i < chars.len()
        invariant
            chars@ == text@,
            start <= i <= chars@.len(),
            start == (if signed { 1int } else { 0int }),
            signed == (text@.len() > 0 && (text@[0] == '+' || text@[0] == '-')),
            negative == (signed && text@[0] == '-'),
            digits == (if signed { text@.drop_first() } else { text@ }),
            digits == chars@.skip(start as int),
            forall|k: int| 0 <= k < i - start ==> spec_is_ascii_digit(digits[k]),
            acc == spec_digits_value(digits.take(i - start)),
            acc <= limit,
            limit == 9223372036854775808u64,
        decreases chars@.len() - i,
    {
        let c = chars[i];
        if !('0' <= c && c <= '9') {
            proof {
                assert(digits[i - start] == c);
                assert(!spec_is_ascii_digit(digits[i - start]));
                assert(!spec_all_digits(digits));
                assert(digits.len() > 0);
            }
            return None;
        }
        let d: u64 = (c as u32 - '0' as u32) as u64;
        proof {
            assert(digits.take(i + 1 - start).drop_last() =~= digits.take(i - start));
            assert(digits.take(i + 1 - start).last() == c);
        }
        if acc > (limit - d) / 10 {
            proof {
                assert(10 * acc + d > limit) by (nonlinear_arith)
                    requires
                        acc > (limit - d) / 10,
                        d <= 9,
                        limit == 9223372036854775808u64;
                assert forall|k: int| 0 <= k < i + 1 - start implies spec_is_ascii_digit(digits[k]) by {
                    if k == i - start {
                        assert(digits[k] == c);
                    }
                }
                assert(spec_digits_value(digits.take(i + 1 - start)) == 10 * acc + d);
                if spec_all_digits(digits) {
                    lemma_digits_value_grows(digits, i + 1 - start, digits.len() as int);
                    assert(digits.take(digits.len() as int) =~= digits);
                    assert(spec_digits_value(digits) > limit);
                }
                assert(digits.len() > 0);
            }
            return None;
        }
        acc = acc * 10 + d;
        i = i + 1;
    }
    proof {
        assert(digits.take(i - start) =~= digits);
    }
    if negative {
        Some((0i128 - acc as i128) as i64)
    } else if acc > 9223372036854775807 {
        None
    } else {
        Some(acc as i64)
    }
}

/// What an attribute binds a parameter of the type to: the text for
/// expression, string and module parameters; a boolean or an integer read
/// from it; a missing attribute, an unreadable value, or an `ast` or
/// keyword parameter given as an attribute is an error of the invocation.
pub open spec fn spec_convert_param(t: MacroParamType, value: Option<Seq<char>>, name: Seq<char>, invocation: Form) -> Result<(MacroParamType, Seq<char>, Option<int>), ErrorView> {
    match value {
        None => Err(spec_error_at(invocation, FormIssueView::MissingParam(name))),
        Some(v) => match t {
            MacroParamType::Expr | MacroParamType::String | MacroParamType::Module => Ok((MacroParamType::String, v, None)),
            MacroParamType::Ast => Err(spec_error_at(invocation, FormIssueView::AstParamSeparate(name))),
            MacroParamType::Bool => if v == "true"@ {
                Ok((MacroParamType::Bool, v, Some(1)))
            } else if v == "false"@ {
                Ok((MacroParamType::Bool, v, Some(0)))
            } else {
                Err(spec_error_at(invocation, FormIssueView::ExpectedBool(name, v)))
            },
            MacroParamType::Int => match spec_parse_i64(v) {
                Some(n) => Ok((MacroParamType::Int, v, Some(n))),
                None => Err(spec_error_at(invocation, FormIssueView::ExpectedInt(name, v))),
            },
            MacroParamType::Keyword => Err(spec_error_at(invocation, FormIssueView::KeywordParamSeparate(name))),
        },
    }
}

/// The value a converted parameter holds, in the shape `spec_convert_param`
/// describes it.
pub open spec fn spec_param_value_matches(v: MacroValue, expected: (MacroParamType, Seq<char>, Option<int>)) -> bool {
    match expected.0 {
        MacroParamType::String => v matches MacroValue::String(s) && s@ == expected.1,
        MacroParamType::Bool => v matches MacroValue::Bool(b) && (b <==> expected.2 == Some(1int)),
        MacroParamType::Int => v matches MacroValue::Int(n) && expected.2 == Some(n as int),
        _ => false,
    }
}

/// Converts an invocation attribute to the value of a parameter of the
/// given type.
pub fn convert_param_value(
    param_type: &MacroParamType,
    attr_value: Option<&String>,
    param_name: &str,
    invocation: &Form,
) -> (r: Result<MacroValue, ScriptLangError>)
    ensures
        match r {
            Ok(v) => spec_convert_param(*param_type, match attr_value {
                Some(s) => Some(s@),
                None => None,
            }, param_name@, *invocation) matches Ok(x) && spec_param_value_matches(v, x),
            Err(e) => spec_convert_param(*param_type, match attr_value {
                Some(s) => Some(s@),
                None => None,
            }, param_name@, *invocation) == Err::<(MacroParamType, Seq<char>, Option<int>), ErrorView>(e@),
        },
{
    let value = match attr_value {
        Some(s) => s,
        None => {
            return Err(error_at(invocation, FormIssue::MissingParam(param_name.to_string())));
        },
    };
    match param_type {
        MacroParamType::Expr | MacroParamType::String | MacroParamType::Module => Ok(MacroValue::String(value.clone())),
        MacroParamType::Ast => Err(error_at(invocation, FormIssue::AstParamSeparate(param_name.to_string()))),
        MacroParamType::Bool => {
            if str_is(value.as_str(), "true") {
                Ok(MacroValue::Bool(true))
            } else if str_is(value.as_str(), "false") {
                Ok(MacroValue::Bool(false))
            } else {
                Err(error_at(invocation, FormIssue::ExpectedBool(param_name.to_string(), value.clone())))
            }
        },
        MacroParamType::Int => match parse_i64(value.as_str()) {
            Some(n) => Ok(MacroValue::Int(n)),
            None => Err(error_at(invocation, FormIssue::ExpectedInt(param_name.to_string(), value.clone()))),
        },
        MacroParamType::Keyword => Err(error_at(invocation, FormIssue::KeywordParamSeparate(param_name.to_string()))),
    }
}

} // verus!
