//! Rewriting of ScriptLang's XML-friendly operator words and single-quoted
//! strings into the expression language's own syntax.
use vstd::prelude::*;
use crate::errors::{ErrorView, ScriptLangError};
use crate::const_eval::{spec_parse_string, spec_string_body, spec_unescape};
use crate::text::{chars_of, is_ident_continue, push_all, push_range, spec_is_ident_continue, string_from_chars};

verus! {

/// End of a double-quoted run whose body starts at `j` (one past the closing
/// quote, or the end of the text); a backslash takes the next character.
pub open spec fn spec_dq_end(s: Seq<char>, j: int) -> int
    decreases s.len() - j,
{
    if j < 0 || j >= s.len() {
        s.len() as int
    } else if s[j] == '\\' {
        if j + 1 >= s.len() {
            s.len() as int
        } else {
            spec_dq_end(s, j + 2)
        }
    } else if s[j] == '"' {
        j + 1
    } else {
        spec_dq_end(s, j + 1)
    }
}

pub proof fn lemma_dq_end(s: Seq<char>, j: int)
    requires
        0 <= j,
    ensures
        j <= spec_dq_end(s, j) <= s.len() || (j > s.len() && spec_dq_end(s, j) == s.len()),
        j < s.len() ==> j < spec_dq_end(s, j),
    decreases s.len() - j,
{
    if j < s.len() {
        if s[j] == '\\' {
            if j + 1 < s.len() {
                lemma_dq_end(s, j + 2);
            }
        } else if s[j] != '"' {
            lemma_dq_end(s, j + 1);
        }
    }
}

/// What an escape `\c` inside a single-quoted string becomes in a
/// double-quoted string.
pub open spec fn spec_escape(c: char) -> Seq<char> {
    if c == '\'' {
        seq!['\'']
    } else if c == '"' {
        seq!['\\', '"']
    } else if c == '\\' {
        seq!['\\', '\\']
    } else if c == 'n' {
        seq!['\\', 'n']
    } else if c == 'r' {
        seq!['\\', 'r']
    } else if c == 't' {
        seq!['\\', 't']
    } else if c == '0' {
        seq!['\\', '0']
    } else {
        seq!['\\', c]
    }
}

/// The double-quoted text of a single-quoted string whose body starts at
/// `j`, up to and including the closing `"`, and the index after the
/// closing `'`.
pub open spec fn spec_single_quoted(s: Seq<char>, j: int) -> Result<(Seq<char>, int), ScriptLangError>
    decreases s.len() - j,
{
    if j < 0 || j >= s.len() {
        Err(ScriptLangError::UnterminatedSingleQuotedString)
    } else if s[j] == '\'' {
        Ok((seq!['"'], j + 1))
    } else if s[j] == '\\' {
        if j + 1 >= s.len() {
            Err(ScriptLangError::UnterminatedSingleQuotedEscape)
        } else {
            match spec_single_quoted(s, j + 2) {
                Ok((rest, next)) => Ok((spec_escape(s[j + 1]) + rest, next)),
                Err(e) => Err(e),
            }
        }
    } else {
        let piece = if s[j] == '"' {
            seq!['\\', '"']
        } else {
            seq![s[j]]
        };
        match spec_single_quoted(s, j + 1) {
            Ok((rest, next)) => Ok((piece + rest, next)),
            Err(e) => Err(e),
        }
    }
}

pub proof fn lemma_single_quoted(s: Seq<char>, j: int)
    requires
        0 <= j,
    ensures
        spec_single_quoted(s, j) matches Ok((enc, next)) ==> j < next <= s.len(),
    decreases s.len() - j,
{
    if j < s.len() && s[j] != '\'' {
        if s[j] == '\\' {
            if j + 1 < s.len() {
                lemma_single_quoted(s, j + 2);
            }
        } else {
            lemma_single_quoted(s, j + 1);
        }
    }
}

/// Whether `c` belongs to an operator word or an identifier.
pub open spec fn spec_is_expr_token_char(c: char) -> bool {
    spec_is_ident_continue(c)
}

/// End of the run of token characters that starts at `i`.
pub open spec fn spec_token_end(s: Seq<char>, i: int) -> int
    decreases s.len() - i,
{
    if i < 0 || i >= s.len() || !spec_is_expr_token_char(s[i]) {
        i
    } else {
        spec_token_end(s, i + 1)
    }
}

pub proof fn lemma_token_end(s: Seq<char>, i: int)
    requires
        0 <= i <= s.len(),
    ensures
        i <= spec_token_end(s, i) <= s.len(),
    decreases s.len() - i,
{
    if i < s.len() && spec_is_expr_token_char(s[i]) {
        lemma_token_end(s, i + 1);
    }
}

/// The word `LTE` becomes `<=`, `LT` becomes `<`, `AND` becomes `&&`; any
/// other word stays.
pub open spec fn spec_operator_word(w: Seq<char>) -> Seq<char> {
    if w == seq!['L', 'T', 'E'] {
        seq!['<', '=']
    } else if w == seq!['L', 'T'] {
        seq!['<']
    } else if w == seq!['A', 'N', 'D'] {
        seq!['&', '&']
    } else {
        w
    }
}

/// The normalized text of `s[i..]`.
pub open spec fn spec_normalize_from(s: Seq<char>, i: int) -> Result<Seq<char>, ScriptLangError>
    decreases s.len() - i,
{
    if i < 0 || i >= s.len() {
        Ok(Seq::empty())
    } else if s[i] == '\'' {
        proof {
            lemma_single_quoted(s, i + 1);
        }
        match spec_single_quoted(s, i + 1) {
            Ok((enc, next)) => match spec_normalize_from(s, next) {
                Ok(rest) => Ok(seq!['"'] + enc + rest),
                Err(e) => Err(e),
            },
            Err(e) => Err(e),
        }
    } else if s[i] == '"' {
        let e = spec_dq_end(s, i + 1);
        proof {
            lemma_dq_end(s, i + 1);
        }
        match spec_normalize_from(s, e) {
            Ok(rest) => Ok(s.subrange(i, e) + rest),
            Err(err) => Err(err),
        }
    } else if spec_is_expr_token_char(s[i]) {
        let e = spec_token_end(s, i + 1);
        proof {
            lemma_token_end(s, i + 1);
        }
        match spec_normalize_from(s, e) {
            Ok(rest) => Ok(spec_operator_word(s.subrange(i, e)) + rest),
            Err(err) => Err(err),
        }
    } else {
        match spec_normalize_from(s, i + 1) {
            Ok(rest) => Ok(seq![s[i]] + rest),
            Err(err) => Err(err),
        }
    }
}

/// Whether `c` belongs to an operator word or an identifier.
pub fn is_expr_token_char(c: char) -> (b: bool)
    ensures
        b == spec_is_expr_token_char(c),
{
    is_ident_continue(c)
}

/// Rewrites the single-quoted string whose opening quote stands at
/// `start` as a double-quoted string; returns it and the index after the
/// closing quote.
pub fn parse_single_quoted_string(chars: &[char], start: usize) -> (r: Result<(Vec<char>, usize), ScriptLangError>)
    requires
        start < chars.len(),
    ensures
        r matches Ok((enc, next)) ==> spec_single_quoted(chars@, start + 1) == Ok::<(Seq<char>, int), ScriptLangError>((enc@.drop_first(), next as int))
            && enc@.len() >= 1 && enc@[0] == '"',
        r matches Err(e) ==> spec_single_quoted(chars@, start + 1) == Err::<(Seq<char>, int), ScriptLangError>(e),
{
    let mut out: Vec<char> = vec!['"'];
    let mut index = start + 1;
    while index < chars.len()
        invariant
            start < index,
            chars@.len() == chars.len(),
            out@.len() >= 1,
            out@[0] == '"',
            match spec_single_quoted(chars@, index as int) {
                Ok((rest, next)) => spec_single_quoted(chars@, start + 1) == Ok::<(Seq<char>, int), ScriptLangError>((out@.drop_first() + rest, next)),
                Err(e) => spec_single_quoted(chars@, start + 1) == Err::<(Seq<char>, int), ScriptLangError>(e),
            },
        decreases chars@.len() - index,
    {
        let ghost old_out = out@;
        let ch = chars[index];
        if ch == '\'' {
            out.push('"');
            assert(out@.drop_first() =~= old_out.drop_first() + seq!['"']);
            return Ok((out, index + 1));
        } else if ch == '\\' {
            if index + 1 >= chars.len() {
                return Err(ScriptLangError::UnterminatedSingleQuotedEscape);
            }
            let next = chars[index + 1];
            if next == '\'' {
                out.push('\'');
            } else if next == '"' {
                out.push('\\');
                out.push('"');
            } else if next == '\\' {
                out.push('\\');
                out.push('\\');
            } else if next == 'n' {
                out.push('\\');
                out.push('n');
            } else if next == 'r' {
                out.push('\\');
                out.push('r');
            } else if next == 't' {
                out.push('\\');
                out.push('t');
            } else if next == '0' {
                out.push('\\');
                out.push('0');
            } else {
                out.push('\\');
                out.push(next);
            }
            assert(out@.drop_first() =~= old_out.drop_first() + spec_escape(next));
            proof {
                match spec_single_quoted(chars@, index + 2) {
                    Ok((rest, nx)) => {
                        assert(out@.drop_first() + rest =~= old_out.drop_first() + (spec_escape(next) + rest));
                    },
                    Err(e) => {},
                }
            }
            index = index + 2;
        } else {
            if ch == '"' {
                out.push('\\');
                out.push('"');
            } else {
                out.push(ch);
            }
            proof {
                let piece = if ch == '"' { seq!['\\', '"'] } else { seq![ch] };
                assert(out@.drop_first() =~= old_out.drop_first() + piece);
                match spec_single_quoted(chars@, index + 1) {
                    Ok((rest, nx)) => {
                        assert(out@.drop_first() + rest =~= old_out.drop_first() + (piece + rest));
                    },
                    Err(e) => {},
                }
            }
            index = index + 1;
        }
    }
    Err(ScriptLangError::UnterminatedSingleQuotedString)
}

/// Rewrites `LTE`, `LT` and `AND` words outside strings into `<=`, `<` and
/// `&&`, turns single-quoted strings into double-quoted ones, and copies
/// double-quoted strings unchanged.
pub fn normalize_expr_escapes(source: &str) -> (r: Result<String, ScriptLangError>)
    ensures
        r matches Ok(out) ==> spec_normalize_from(source@, 0) == Ok::<Seq<char>, ScriptLangError>(out@),
        r matches Err(e) ==> spec_normalize_from(source@, 0) == Err::<Seq<char>, ScriptLangError>(e),
{
    let chars = chars_of(source);
    let mut out: Vec<char> = Vec::new();
    let mut index: usize = 0;
    while index < chars.len()
        invariant
            chars@ == source@,
            index <= chars@.len(),
            match spec_normalize_from(chars@, index as int) {
                Ok(rest) => spec_normalize_from(chars@, 0) == Ok::<Seq<char>, ScriptLangError>(out@ + rest),
                Err(e) => spec_normalize_from(chars@, 0) == Err::<Seq<char>, ScriptLangError>(e),
            },
        decreases chars@.len() - index,
    {
        let ghost old_out = out@;
        let ch = chars[index];
        if ch == '\'' {
            match parse_single_quoted_string(&chars, index) {
                Ok((encoded, next)) => {
                    proof {
                        lemma_single_quoted(chars@, index + 1);
                    }
                    push_all(&mut out, &encoded);
                    proof {
                        assert(encoded@ =~= seq!['"'] + encoded@.drop_first());
                        match spec_normalize_from(chars@, next as int) {
                            Ok(rest) => {
                                assert(out@ + rest =~= old_out + (seq!['"'] + encoded@.drop_first() + rest));
                            },
                            Err(e) => {},
                        }
                    }
                    index = next;
                },
                Err(e) => {
                    return Err(e);
                },
            }
        } else if ch == '"' {
            let start = index;
            proof {
                lemma_dq_end(chars@, start + 1);
            }
            index = index + 1;
            let mut done = false;
            while index < chars.len() && !done
                invariant
                    start < index,
                    chars@.len() == chars.len(),
                    !done ==> spec_dq_end(chars@, index as int) == spec_dq_end(chars@, start + 1),
                    done ==> index == spec_dq_end(chars@, start + 1),
                    index <= chars@.len(),
                decreases chars@.len() - index,
            {
                let c = chars[index];
                index = index + 1;
                if c == '\\' {
                    if index < chars.len() {
                        index = index + 1;
                    }
                } else if c == '"' {
                    done = true;
                }
            }
            push_range(&mut out, &chars, start, index);
            proof {
                match spec_normalize_from(chars@, index as int) {
                    Ok(rest) => {
                        assert(out@ + rest =~= old_out + (chars@.subrange(start as int, index as int) + rest));
                    },
                    Err(e) => {},
                }
            }
        } else if is_expr_token_char(ch) {
            let start = index;
            proof {
                lemma_token_end(chars@, start + 1);
            }
            index = index + 1;
            while index < chars.len() && is_expr_token_char(chars[index])
                invariant
                    start < index <= chars@.len(),
                    chars@.len() == chars.len(),
                    spec_token_end(chars@, index as int) == spec_token_end(chars@, start + 1),
                decreases chars@.len() - index,
            {
                index = index + 1;
            }
            let ghost word = chars@.subrange(start as int, index as int);
            let len = index - start;
            assert(forall|k: int| 0 <= k < word.len() ==> word[k] == chars@[start + k]);
            if len == 3 && chars[start] == 'L' && chars[start + 1] == 'T' && chars[start + 2] == 'E' {
                assert(word =~= seq!['L', 'T', 'E']);
                out.push('<');
                out.push('=');
            } else if len == 2 && chars[start] == 'L' && chars[start + 1] == 'T' {
                assert(word =~= seq!['L', 'T']);
                out.push('<');
            } else if len == 3 && chars[start] == 'A' && chars[start + 1] == 'N' && chars[start + 2] == 'D' {
                assert(word =~= seq!['A', 'N', 'D']);
                out.push('&');
                out.push('&');
            } else {
                assert(word != seq!['L', 'T', 'E'] && word != seq!['L', 'T'] && word != seq!['A', 'N', 'D']) by {
                    assert(word.len() == len);
                    if len >= 1 {
                        assert(word[0] == chars@[start as int]);
                    }
                    if len >= 2 {
                        assert(word[1] == chars@[start + 1]);
                    }
                    if len >= 3 {
                        assert(word[2] == chars@[start + 2]);
                    }
                    assert(seq!['L', 'T', 'E'][0] == 'L' && seq!['L', 'T', 'E'][1] == 'T' && seq!['L', 'T', 'E'][2] == 'E');
                    assert(seq!['L', 'T'][0] == 'L' && seq!['L', 'T'][1] == 'T');
                    assert(seq!['A', 'N', 'D'][0] == 'A' && seq!['A', 'N', 'D'][1] == 'N' && seq!['A', 'N', 'D'][2] == 'D');
                }
                push_range(&mut out, &chars, start, index);
            }
            proof {
                assert(out@ =~= old_out + spec_operator_word(word));
                match spec_normalize_from(chars@, index as int) {
                    Ok(rest) => {
                        assert(out@ + rest =~= old_out + (spec_operator_word(word) + rest));
                    },
                    Err(e) => {},
                }
            }
        } else {
            out.push(ch);
            proof {
                match spec_normalize_from(chars@, index + 1) {
                    Ok(rest) => {
                        assert(out@ + rest =~= old_out + (seq![ch] + rest));
                    },
                    Err(e) => {},
                }
            }
            index = index + 1;
        }
    }
    assert(out@ + Seq::<char>::empty() =~= out@);
    Ok(string_from_chars(&out))
}

/// Scanning a double-quoted run depends only on the text from where it
/// starts.
pub proof fn lemma_dq_end_shift(p: Seq<char>, q: Seq<char>, k: int)
    requires
        0 <= k,
    ensures
        spec_dq_end(p + q, p.len() + k) == p.len() + spec_dq_end(q, k),
    decreases q.len() - k,
{
    let s = p + q;
    let j = p.len() + k;
    if k < q.len() {
        assert(s[j] == q[k]);
        if q[k] == '\\' {
            if k + 1 < q.len() {
                lemma_dq_end_shift(p, q, k + 2);
            }
        } else if q[k] != '"' {
            lemma_dq_end_shift(p, q, k + 1);
        }
    }
}

/// A run of token characters ends where it would in the text from its
/// start on.
pub proof fn lemma_token_end_shift(p: Seq<char>, q: Seq<char>, k: int)
    requires
        0 <= k,
    ensures
        spec_token_end(p + q, p.len() + k) == p.len() + spec_token_end(q, k),
    decreases q.len() - k,
{
    if k < q.len() {
        assert((p + q)[p.len() + k] == q[k]);
        if spec_is_expr_token_char(q[k]) {
            lemma_token_end_shift(p, q, k + 1);
        }
    }
}

/// A single-quoted string reads the same from its start on.
pub proof fn lemma_single_quoted_shift(p: Seq<char>, q: Seq<char>, k: int)
    requires
        0 <= k,
    ensures
        spec_single_quoted(p + q, p.len() + k) == match spec_single_quoted(q, k) {
            Ok((enc, next)) => Ok::<(Seq<char>, int), ScriptLangError>((enc, p.len() + next)),
            Err(e) => Err(e),
        },
    decreases q.len() - k,
{
    let s = p + q;
    let j = p.len() + k;
    if k < q.len() {
        assert(s[j] == q[k]);
        if q[k] == '\\' {
            if k + 1 < q.len() {
                assert(s[j + 1] == q[k + 1]);
                lemma_single_quoted_shift(p, q, k + 2);
            }
        } else if q[k] != '\'' {
            lemma_single_quoted_shift(p, q, k + 1);
        }
    }
}

/// Normalizing from a point depends only on the text from that point on.
pub proof fn lemma_normalize_shift(p: Seq<char>, q: Seq<char>, k: int)
    requires
        0 <= k,
    ensures
        spec_normalize_from(p + q, p.len() + k) == spec_normalize_from(q, k),
    decreases q.len() - k,
{
    let s = p + q;
    let j = p.len() + k;
    if k < q.len() {
        assert(s[j] == q[k]);
        if q[k] == '\'' {
            lemma_single_quoted_shift(p, q, k + 1);
            lemma_single_quoted(q, k + 1);
            match spec_single_quoted(q, k + 1) {
                Ok((enc, next)) => {
                    lemma_normalize_shift(p, q, next);
                },
                Err(_) => {},
            }
        } else if q[k] == '"' {
            lemma_dq_end_shift(p, q, k + 1);
            lemma_dq_end(q, k + 1);
            let e = spec_dq_end(q, k + 1);
            lemma_normalize_shift(p, q, e);
            assert(s.subrange(j, p.len() + e) =~= q.subrange(k, e));
        } else if spec_is_expr_token_char(q[k]) {
            lemma_token_end_shift(p, q, k + 1);
            lemma_token_end(q, k + 1);
            let e = spec_token_end(q, k + 1);
            lemma_normalize_shift(p, q, e);
            assert(s.subrange(j, p.len() + e) =~= q.subrange(k, e));
        } else {
            lemma_normalize_shift(p, q, k + 1);
        }
    }
}

/// The double-quoted text a single-quoted string becomes is one complete
/// double-quoted run: scanning it ends just after its closing quote.
pub proof fn lemma_single_quoted_closed(s: Seq<char>, j: int, x: Seq<char>)
    requires
        0 <= j,
        spec_single_quoted(s, j) is Ok,
    ensures
        ({
            let enc = spec_single_quoted(s, j)->Ok_0.0;
            spec_dq_end(enc + x, 0) == enc.len()
        }),
    decreases s.len() - j,
{
    let enc = spec_single_quoted(s, j)->Ok_0.0;
    if s[j] == '\'' {
        assert((enc + x)[0] == '"');
    } else if s[j] == '\\' {
        lemma_single_quoted_closed(s, j + 2, x);
        let rest = spec_single_quoted(s, j + 2)->Ok_0.0;
        let esc = spec_escape(s[j + 1]);
        assert(enc == esc + rest);
        assert(enc + x =~= esc + (rest + x));
        lemma_dq_end_shift(esc, rest + x, 0);
        if s[j + 1] == '\'' {
            assert((enc + x)[0] == '\'');
        } else {
            assert((enc + x)[0] == '\\');
        }
    } else {
        lemma_single_quoted_closed(s, j + 1, x);
        let rest = spec_single_quoted(s, j + 1)->Ok_0.0;
        let piece = if s[j] == '"' { seq!['\\', '"'] } else { seq![s[j]] };
        assert(enc == piece + rest);
        assert(enc + x =~= piece + (rest + x));
        lemma_dq_end_shift(piece, rest + x, 0);
        assert((enc + x)[0] == piece[0]);
    }
}

/// A double-quoted run of `s` that starts at `i` scans the same once cut
/// out and followed by `rest`, when the run is closed or `rest` is empty.
pub proof fn lemma_dq_run_cut(s: Seq<char>, i: int, j: int, rest: Seq<char>)
    requires
        0 <= i < j,
        i < s.len(),
        j <= s.len(),
        spec_dq_end(s, j) == spec_dq_end(s, i + 1),
        spec_dq_end(s, i + 1) < s.len() || rest.len() == 0,
    ensures
        ({
            let e = spec_dq_end(s, i + 1);
            spec_dq_end(s.subrange(i, e) + rest, j - i) == e - i
        }),
    decreases s.len() - j,
{
    let e = spec_dq_end(s, i + 1);
    lemma_dq_end(s, i + 1);
    lemma_dq_end(s, j);
    let t = s.subrange(i, e) + rest;
    if j < s.len() {
        assert(j < e);
        assert(t[j - i] == s[j]);
        if s[j] == '\\' {
            if j + 1 < s.len() {
                lemma_dq_end(s, j + 2);
                assert(t[j + 1 - i] == s[j + 1]);
                lemma_dq_run_cut(s, i, j + 2, rest);
            } else {
                assert(t.len() == e - i);
            }
        } else if s[j] != '"' {
            lemma_dq_run_cut(s, i, j + 1, rest);
        }
    } else {
        assert(t.len() == e - i);
    }
}

/// Text that normalization produced from a point where the text does not
/// hold a token character starts with no token character.
pub proof fn lemma_normalized_head(s: Seq<char>, i: int)
    requires
        0 <= i <= s.len(),
        i < s.len() ==> !spec_is_expr_token_char(s[i]),
        spec_normalize_from(s, i) is Ok,
    ensures
        ({
            let t = spec_normalize_from(s, i)->Ok_0;
            t.len() == 0 <==> i == s.len()
        }),
        ({
            let t = spec_normalize_from(s, i)->Ok_0;
            t.len() > 0 ==> !spec_is_expr_token_char(t[0])
        }),
{
    if i < s.len() {
        if s[i] == '"' {
            lemma_dq_end(s, i + 1);
        }
    }
}

/// A run of token characters followed by text that does not start with
/// one ends where the run ends.
pub proof fn lemma_token_run(w: Seq<char>, rest: Seq<char>, k: int)
    requires
        0 <= k <= w.len(),
        forall|x: int| 0 <= x < w.len() ==> spec_is_expr_token_char(w[x]),
        rest.len() > 0 ==> !spec_is_expr_token_char(rest[0]),
    ensures
        spec_token_end(w + rest, k) == w.len(),
    decreases w.len() - k,
{
    if k < w.len() {
        assert((w + rest)[k] == w[k]);
        lemma_token_run(w, rest, k + 1);
    } else {
        lemma_token_end_shift(w, rest, 0);
        if rest.len() > 0 {
            assert((w + rest)[k] == rest[0]);
        }
    }
}

/// Normalizing from `i` gives text that normalization leaves unchanged.
#[verifier::spinoff_prover]
pub proof fn lemma_normalize_stable(s: Seq<char>, i: int)
    requires
        0 <= i,
        spec_normalize_from(s, i) is Ok,
    ensures
        ({
            let t = spec_normalize_from(s, i)->Ok_0;
            spec_normalize_from(t, 0) == Ok::<Seq<char>, ScriptLangError>(t)
        }),
    decreases s.len() - i,
{
    let t = spec_normalize_from(s, i)->Ok_0;
    if i >= s.len() {
        assert(t.len() == 0);
    } else if s[i] == '\'' {
        lemma_single_quoted(s, i + 1);
        let (enc, next) = spec_single_quoted(s, i + 1)->Ok_0;
        lemma_normalize_stable(s, next);
        let rest = spec_normalize_from(s, next)->Ok_0;
        let head = seq!['"'] + enc;
        assert(t =~= head + rest);
        lemma_single_quoted_closed(s, i + 1, rest);
        assert(seq!['"'] + (enc + rest) =~= t);
        lemma_dq_end_shift(seq!['"'], enc + rest, 0);
        assert(spec_dq_end(t, 1) == head.len());
        lemma_normalize_shift(head, rest, 0);
        assert(t.subrange(0, head.len() as int) =~= head);
        assert(t[0] == '"');
    } else if s[i] == '"' {
        lemma_dq_end(s, i + 1);
        let e = spec_dq_end(s, i + 1);
        lemma_normalize_stable(s, e);
        let rest = spec_normalize_from(s, e)->Ok_0;
        let head = s.subrange(i, e);
        assert(t =~= head + rest);
        if e >= s.len() {
            assert(rest.len() == 0);
        }
        lemma_dq_run_cut(s, i, i + 1, rest);
        lemma_normalize_shift(head, rest, 0);
        assert(t.subrange(0, head.len() as int) =~= head);
        assert(t[0] == '"');
    } else if spec_is_expr_token_char(s[i]) {
        lemma_token_end(s, i + 1);
        let e = spec_token_end(s, i + 1);
        lemma_normalize_stable(s, e);
        let rest = spec_normalize_from(s, e)->Ok_0;
        let w = s.subrange(i, e);
        let out = spec_operator_word(w);
        assert(t =~= out + rest);
        assert forall|x: int| 0 <= x < w.len() implies spec_is_expr_token_char(w[x]) by {
            lemma_token_chars(s, i + 1, i + x);
        }
        lemma_token_end_stops(s, i + 1);
        lemma_normalized_head(s, e);
        lemma_normalize_shift(out, rest, 0);
        if out == w {
            lemma_token_run(w, rest, 1);
            assert(t.subrange(0, w.len() as int) =~= w);
            assert(t[0] == w[0]);
        } else if w == seq!['L', 'T'] {
            assert(out == seq!['<']);
            assert(t == out + rest);
            assert(t[0] == '<');
        } else {
            let c0 = out[0];
            let c1 = out[1];
            assert(t[0] == c0);
            assert(t[1] == c1);
            lemma_normalize_shift(seq![c0], out.drop_first() + rest, 0);
            assert(seq![c0] + (out.drop_first() + rest) =~= t);
            assert(out.drop_first() + rest =~= seq![c1] + rest);
            lemma_normalize_shift(seq![c1], rest, 0);
        }
    } else {
        lemma_normalize_stable(s, i + 1);
        let rest = spec_normalize_from(s, i + 1)->Ok_0;
        assert(t =~= seq![s[i]] + rest);
        lemma_normalize_shift(seq![s[i]], rest, 0);
    }
}

/// Every character from `from` up to where its token run ends is a token
/// character.
pub proof fn lemma_token_chars(s: Seq<char>, from: int, x: int)
    requires
        0 < from,
        from - 1 <= x < spec_token_end(s, from),
        from - 1 < s.len(),
        spec_is_expr_token_char(s[from - 1]),
    ensures
        spec_is_expr_token_char(s[x]),
    decreases x - from + 1,
{
    if x >= from {
        lemma_token_chars_from(s, from, x);
    }
}

proof fn lemma_token_end_stops(s: Seq<char>, k: int)
    requires
        0 <= k,
    ensures
        0 <= spec_token_end(s, k) < s.len() ==> !spec_is_expr_token_char(s[spec_token_end(s, k)]),
    decreases s.len() - k,
{
    if k < s.len() && spec_is_expr_token_char(s[k]) {
        lemma_token_end_stops(s, k + 1);
    }
}

proof fn lemma_token_chars_from(s: Seq<char>, k: int, x: int)
    requires
        0 <= k <= x < spec_token_end(s, k),
    ensures
        spec_is_expr_token_char(s[x]),
    decreases x - k,
{
    if x > k {
        lemma_token_chars_from(s, k + 1, x);
    }
}

/// Reading a string body that follows a prefix is reading it alone, moved
/// along by the prefix.
pub proof fn lemma_string_body_shift(p: Seq<char>, r: Seq<char>, k: int, q: char)
    requires
        0 <= k,
    ensures
        spec_string_body(p + r, p.len() + k, q) == match spec_string_body(r, k, q) {
            Ok((v, e)) => Ok::<(Seq<char>, int), ErrorView>((v, e + p.len())),
            Err(x) => Err(x),
        },
    decreases r.len() - k,
{
    let s = p + r;
    let j = p.len() + k;
    if k < r.len() {
        assert(s[j] == r[k]);
        if r[k] != q && r[k] == '\\' {
            if k + 1 < r.len() {
                assert(s[j + 1] == r[k + 1]);
                lemma_string_body_shift(p, r, k + 2, q);
            }
        } else if r[k] != q {
            lemma_string_body_shift(p, r, k + 1, q);
        }
    }
}

/// Rewriting a single-quoted string as a double-quoted one keeps the string
/// it denotes: read with the const parser's reader, the single-quoted body
/// from `j` and the double-quoted rewrite give the same text, and the
/// rewrite is read to its end.
pub proof fn law_single_quoted_rewrite_keeps_value(s: Seq<char>, j: int)
    requires
        0 <= j,
        spec_single_quoted(s, j) is Ok,
    ensures
        spec_string_body(s, j, '\'') matches Ok((v, e)) && e == spec_single_quoted(s, j)->Ok_0.1
            && spec_string_body(spec_single_quoted(s, j)->Ok_0.0, 0, '"') == Ok::<(Seq<char>, int), ErrorView>(
            (v, spec_single_quoted(s, j)->Ok_0.0.len() as int),
        ),
    decreases s.len() - j,
{
    let enc = spec_single_quoted(s, j)->Ok_0.0;
    if s[j] == '\'' {
        assert(enc == seq!['"']);
    } else if s[j] == '\\' {
        law_single_quoted_rewrite_keeps_value(s, j + 2);
        let rest = spec_single_quoted(s, j + 2)->Ok_0.0;
        let c = s[j + 1];
        let esc = spec_escape(c);
        assert(enc == esc + rest);
        lemma_string_body_shift(esc, rest, 0, '"');
        if c == '\'' {
            assert(esc == seq!['\'']);
            assert(spec_unescape(c) == c);
        } else {
            assert(esc == seq!['\\', c]);
            assert(esc[1] == c);
        }
    } else {
        law_single_quoted_rewrite_keeps_value(s, j + 1);
        let rest = spec_single_quoted(s, j + 1)->Ok_0.0;
        let piece = if s[j] == '"' {
            seq!['\\', '"']
        } else {
            seq![s[j]]
        };
        assert(enc == piece + rest);
        lemma_string_body_shift(piece, rest, 0, '"');
        if s[j] == '"' {
            assert(piece[1] == '"');
            assert(spec_unescape('"') == '"');
        } else {
            assert(piece[0] == s[j]);
        }
    }
}

/// A whole text that is one single-quoted string normalizes to a
/// double-quoted string that the const parser reads as the same text.
pub proof fn law_normalized_single_quoted_string_reads_the_same(s: Seq<char>)
    requires
        s.len() >= 2,
        s[0] == '\'',
        spec_single_quoted(s, 1) matches Ok((_, next)) && next == s.len(),
    ensures
        spec_normalize_from(s, 0) matches Ok(t) && spec_parse_string(s, 0) matches Ok((v, e)) && e == s.len()
            && spec_parse_string(t, 0) == Ok::<(Seq<char>, int), ErrorView>((v, t.len() as int)),
{
    law_single_quoted_rewrite_keeps_value(s, 1);
    let enc = spec_single_quoted(s, 1)->Ok_0.0;
    assert(spec_normalize_from(s, s.len() as int) == Ok::<Seq<char>, ScriptLangError>(Seq::empty()));
    let t = seq!['"'] + enc + Seq::<char>::empty();
    assert(spec_normalize_from(s, 0) == Ok::<Seq<char>, ScriptLangError>(t));
    assert(t =~= seq!['"'] + enc);
    lemma_string_body_shift(seq!['"'], enc, 0, '"');
}

} // verus!
