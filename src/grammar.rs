use vstd::prelude::*;
use crate::ast::{DynFunction, DynParam};
use crate::value::DynType;
use crate::parse::ParseErrorKind;

verus! {

broadcast use vstd::std_specs::vec::axiom_vec_index_decreases;

/// Whether `c` is a Unicode letter or digit, as `char::is_alphanumeric` decides.
pub uninterp spec fn alphanumeric(c: char) -> bool;

/// Whitespace that may stand before any token.
pub open spec fn is_space(c: char) -> bool {
    c == ' ' || c == '\t' || c == '\r' || c == '\n'
}

pub open spec fn is_digit(c: char) -> bool {
    '0' <= c && c <= '9'
}

/// An ASCII letter or digit.
pub open spec fn is_ascii_alnum(c: char) -> bool {
    ('a' <= c && c <= 'z') || ('A' <= c && c <= 'Z') || is_digit(c)
}

/// A character that may stand in a function name: a letter, a digit or `_`.
/// Beyond ASCII, letters and digits are those of Unicode.
pub open spec fn is_ident_char(c: char) -> bool {
    if (c as u32) < 128 {
        is_ascii_alnum(c) || c == '_'
    } else {
        alphanumeric(c)
    }
}

/// The first position at or after `i` that holds no whitespace.
pub open spec fn skip_ws(s: Seq<char>, i: int) -> int
    decreases s.len() - i,
{
    if 0 <= i < s.len() && is_space(s[i]) {
        skip_ws(s, i + 1)
    } else {
        i
    }
}

/// The first position at or after `i` that holds no name character.
pub open spec fn ident_end(s: Seq<char>, i: int) -> int
    decreases s.len() - i,
{
    if 0 <= i < s.len() && is_ident_char(s[i]) {
        ident_end(s, i + 1)
    } else {
        i
    }
}

/// The first position at or after `i` that holds no decimal digit.
pub open spec fn digits_end(s: Seq<char>, i: int) -> int
    decreases s.len() - i,
{
    if 0 <= i < s.len() && is_digit(s[i]) {
        digits_end(s, i + 1)
    } else {
        i
    }
}

/// The first position at or after `i` that holds a single quote, or the end.
pub open spec fn quote_end(s: Seq<char>, i: int) -> int
    decreases s.len() - i,
{
    if 0 <= i < s.len() && s[i] != '\'' {
        quote_end(s, i + 1)
    } else {
        i
    }
}

/// The number that a run of decimal digits denotes.
pub open spec fn digits_value(d: Seq<char>) -> int
    decreases d.len(),
{
    if d.len() == 0 {
        0
    } else {
        10 * digits_value(d.drop_last()) + (d.last() as u32 - '0' as u32)
    }
}

pub open spec fn fits_i64(v: int) -> bool {
    i64::MIN <= v <= i64::MAX
}

/// `Ok` with where the call expression that starts at `i` ends, or `Err`
/// with the position at which reading stopped, and why, where the text from
/// `i` on is no call expression:
/// `ws* name ws* '(' (ws* ')' | param (ws* ',' param)* ws* ')')`.
pub open spec fn call_end(s: Seq<char>, i: int) -> Result<int, (int, ParseErrorKind)>
    decreases 5 * (s.len() - i) + 1,
{
    if !(0 <= i <= s.len()) {
        Err((i, ParseErrorKind::Syntax))
    } else {
        let a = skip_ws(s, i);
        let b = ident_end(s, a);
        let c = skip_ws(s, b);
        if !(i <= a < b) {
            Err((a, ParseErrorKind::Syntax))
        } else if !(b <= c < s.len()) || s[c] != '(' {
            Err((c, ParseErrorKind::Syntax))
        } else {
            match args_end(s, c + 1) {
                Err(x) => Err(x),
                Ok(e) => {
                    let g = skip_ws(s, e);
                    if c + 1 <= e <= g < s.len() && s[g] == ')' {
                        Ok(g + 1)
                    } else {
                        Err((g, ParseErrorKind::Syntax))
                    }
                },
            }
        }
    }
}

/// Where the argument list that starts at `d` ends (before the closing
/// parenthesis): at once where only whitespace and `)` follow.
pub open spec fn args_end(s: Seq<char>, d: int) -> Result<int, (int, ParseErrorKind)>
    decreases 5 * (s.len() - d) + 4,
{
    if !(0 <= d <= s.len()) {
        Err((d, ParseErrorKind::Syntax))
    } else {
        let p = skip_ws(s, d);
        if d <= p < s.len() && s[p] == ')' {
            Ok(d)
        } else {
            items_end(s, d)
        }
    }
}

/// Where a non-empty, comma-separated run of parameters starting at `d` ends.
pub open spec fn items_end(s: Seq<char>, d: int) -> Result<int, (int, ParseErrorKind)>
    decreases 5 * (s.len() - d) + 3,
{
    if !(0 <= d <= s.len()) {
        Err((d, ParseErrorKind::Syntax))
    } else {
        match param_end(s, d) {
            Err(x) => Err(x),
            Ok(e) => {
                let g = skip_ws(s, e);
                if d < e <= g < s.len() && s[g] == ',' {
                    items_end(s, g + 1)
                } else if d < e {
                    Ok(e)
                } else {
                    Err((d, ParseErrorKind::Syntax))
                }
            },
        }
    }
}

/// Where the parameter that starts at `d` ends. After whitespace, a digit
/// starts a number, a quote starts a text literal, and anything else a
/// nested call; the first alternative that applies is the only one tried.
/// An integer literal that does not fit in an `i64` stops reading with
/// `IntegerOutOfRange`.
pub open spec fn param_end(s: Seq<char>, d: int) -> Result<int, (int, ParseErrorKind)>
    decreases 5 * (s.len() - d) + 2,
{
    if !(0 <= d <= s.len()) {
        Err((d, ParseErrorKind::Syntax))
    } else {
        let p = skip_ws(s, d);
        if !(d <= p < s.len()) {
            Err((p, ParseErrorKind::Syntax))
        } else if is_digit(s[p]) {
            let q = digits_end(s, p);
            if q < s.len() && s[q] == '.' {
                Ok(digits_end(s, q + 1))
            } else if fits_i64(digits_value(s.subrange(p, q))) {
                Ok(q)
            } else {
                Err((p, ParseErrorKind::IntegerOutOfRange))
            }
        } else if s[p] == '\'' {
            let q = quote_end(s, p + 1);
            if q < s.len() {
                Ok(q + 1)
            } else {
                Err((q, ParseErrorKind::Syntax))
            }
        } else {
            call_end(s, p)
        }
    }
}

/// The start positions of the parameters in a run starting at `d`.
pub open spec fn item_starts(s: Seq<char>, d: int) -> Seq<int>
    decreases s.len() - d,
{
    if !(0 <= d <= s.len()) {
        Seq::empty()
    } else {
        match param_end(s, d) {
            Ok(e) => {
                let g = skip_ws(s, e);
                if d < e <= g < s.len() && s[g] == ',' {
                    seq![d] + item_starts(s, g + 1)
                } else {
                    seq![d]
                }
            },
            Err(_) => seq![d],
        }
    }
}

/// The start positions of the parameters in the argument list at `d`.
pub open spec fn arg_starts(s: Seq<char>, d: int) -> Seq<int> {
    let p = skip_ws(s, d);
    if d <= p < s.len() && s[p] == ')' {
        Seq::empty()
    } else {
        item_starts(s, d)
    }
}

/// `f` is the call tree that the call expression at `i` denotes.
pub open spec fn call_tree(s: Seq<char>, i: int, f: DynFunction) -> bool
    decreases f,
{
    let a = skip_ws(s, i);
    let b = ident_end(s, a);
    let c = skip_ws(s, b);
    let starts = arg_starts(s, c + 1);
    &&& f.name@ == s.subrange(a, b)
    &&& f.params@.len() == starts.len()
    &&& forall|k: int| 0 <= k < starts.len() ==> param_tree(s, starts[k], #[trigger] f.params[k])
}

/// `p` is the parameter that the text at `d` denotes.
pub open spec fn param_tree(s: Seq<char>, d: int, p: DynParam) -> bool
    decreases p,
{
    let q0 = skip_ws(s, d);
    let q = digits_end(s, q0);
    if is_digit(s[q0]) {
        if q < s.len() && s[q] == '.' {
            match p {
                DynParam::Value(DynType::F64(t)) => t@ == s.subrange(q0, digits_end(s, q + 1)),
                _ => false,
            }
        } else {
            p == DynParam::Value(DynType::I64(digits_value(s.subrange(q0, q)) as i64))
        }
    } else if s[q0] == '\'' {
        match p {
            DynParam::Value(DynType::Str(t)) => t@ == s.subrange(q0 + 1, quote_end(s, q0 + 1)),
            _ => false,
        }
    } else {
        match p {
            DynParam::Function(f) => call_tree(s, q0, f),
            _ => false,
        }
    }
}

proof fn lemma_quote_end_at(s: Seq<char>, k: int, q: int)
    requires
        0 <= k <= q < s.len(),
        s[q] == '\'',
        forall|j: int| k <= j < q ==> #[trigger] s[j] != '\'',
    ensures
        quote_end(s, k) == q,
    decreases q - k,
{
    if k < q {
        lemma_quote_end_at(s, k + 1, q);
    }
}

/// A quoted text parameter runs from its opening quote to the next single
/// quote, whatever stands between them: commas and parentheses inside the
/// quotes neither end the literal nor start a new parameter or call.
pub proof fn lemma_quoted_text_runs_to_next_quote(s: Seq<char>, p: int, q: int, t: DynParam)
    requires
        0 <= p < q < s.len(),
        s[p] == '\'',
        s[q] == '\'',
        forall|j: int| p < j < q ==> #[trigger] s[j] != '\'',
    ensures
        param_end(s, p) == Ok::<int, (int, ParseErrorKind)>(q + 1),
        param_tree(s, p, t) <==> match t {
            DynParam::Value(DynType::Str(x)) => x@ == s.subrange(p + 1, q),
            _ => false,
        },
{
    lemma_quote_end_at(s, p + 1, q);
    assert(skip_ws(s, p) == p);
    assert(!is_digit(s[p]));
}

} // verus!
