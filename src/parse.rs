use vstd::prelude::*;
use vstd::string::StrSliceExecFns;
use crate::ast::{DynFunction, DynParam};
use crate::value::DynType;
use crate::grammar::{
    alphanumeric, arg_starts, args_end, call_end, call_tree, digits_end, digits_value, fits_i64,
    ident_end, is_ascii_alnum, is_digit, is_ident_char, item_starts, items_end, param_end,
    param_tree, quote_end, skip_ws,
};

verus! {

broadcast use vstd::std_specs::vec::axiom_vec_index_decreases;

/// Why reading a call expression stopped.
#[derive(Debug, Clone, Copy, PartialEq, Eq, Structural)]
pub enum ParseErrorKind {
    /// The text does not follow the grammar.
    Syntax,
    /// An integer literal follows the grammar but does not fit in an `i64`.
    IntegerOutOfRange,
}

/// Input that is no call expression. `position` is the character offset at
/// which reading stopped; the text from there on was not consumed.
#[derive(Debug, Clone, Copy, PartialEq, Eq, Structural)]
pub struct ParseError {
    pub position: usize,
    pub kind: ParseErrorKind,
}

/// A syntax error at `position`.
fn syntax_error(position: usize) -> (r: ParseError)
    ensures
        r == (ParseError { position, kind: ParseErrorKind::Syntax }),
{
    ParseError { position, kind: ParseErrorKind::Syntax }
}

/// Relies on `char::is_alphanumeric`: whether `c` has the Unicode
/// `Alphabetic` property or a numeric general category. Among ASCII
/// characters these are exactly the letters and the digits.
#[verifier::external_body]
fn is_alnum(c: char) -> (r: bool)
    ensures
        r == alphanumeric(c),
        (c as u32) < 128 ==> (r == is_ascii_alnum(c)),
{
    c.is_alphanumeric()
}

/// Whether `c` may stand in a function name: a letter, a digit or `_`.
pub fn is_valid_identifier_char(c: char) -> (r: bool)
    ensures
        r == is_ident_char(c),
{
    is_alnum(c) || c == '_'
}

/// The characters of `input`, in order.
fn to_chars(input: &str) -> (r: Vec<char>)
    ensures
        r@ == input@,
{
    let n = input.unicode_len();
    let mut out: Vec<char> = Vec::new();
    let mut i: usize = 0;
    while i < n
        invariant
            n == input@.len(),
            i <= n,
            out@ == input@.subrange(0, i as int),
        decreases n - i,
    {
        out.push(input.get_char(i));
        i = i + 1;
    }
    out
}

fn skip_whitespace(cs: &Vec<char>, i: usize) -> (r: usize)
    requires
        i <= cs@.len(),
    ensures
        r == skip_ws(cs@, i as int),
        i <= r <= cs@.len(),
{
    let mut j = i;
    while j < cs.len() && (cs[j] == ' ' || cs[j] == '\t' || cs[j] == '\r' || cs[j] == '\n')
        invariant
            i <= j <= cs@.len(),
            skip_ws(cs@, i as int) == skip_ws(cs@, j as int),
        decreases cs@.len() - j,
    {
        j = j + 1;
    }
    j
}

/// The end of the function name that starts at `i`.
fn parse_identifier(cs: &Vec<char>, i: usize) -> (r: usize)
    requires
        i <= cs@.len(),
    ensures
        r == ident_end(cs@, i as int),
        i <= r <= cs@.len(),
{
    let mut j = i;
    while j < cs.len() && is_valid_identifier_char(cs[j])
        invariant
            i <= j <= cs@.len(),
            ident_end(cs@, i as int) == ident_end(cs@, j as int),
        decreases cs@.len() - j,
    {
        j = j + 1;
    }
    j
}

fn skip_digits(cs: &Vec<char>, i: usize) -> (r: usize)
    requires
        i <= cs@.len(),
    ensures
        r == digits_end(cs@, i as int),
        i <= r <= cs@.len(),
        i < cs@.len() && is_digit(cs@[i as int]) ==> i < r,
        forall|k: int| i <= k < r ==> is_digit(#[trigger] cs@[k]),
{
    let mut j = i;
    while j < cs.len() && cs[j] >= '0' && cs[j] <= '9'
        invariant
            i <= j <= cs@.len(),
            digits_end(cs@, i as int) == digits_end(cs@, j as int),
            forall|k: int| i <= k < j ==> is_digit(#[trigger] cs@[k]),
        decreases cs@.len() - j,
    {
        j = j + 1;
    }
    j
}

fn find_quote(cs: &Vec<char>, i: usize) -> (r: usize)
    requires
        i <= cs@.len(),
    ensures
        r == quote_end(cs@, i as int),
        i <= r <= cs@.len(),
{
    let mut j = i;
    while j < cs.len() && cs[j] != '\''
        invariant
            i <= j <= cs@.len(),
            quote_end(cs@, i as int) == quote_end(cs@, j as int),
        decreases cs@.len() - j,
    {
        j = j + 1;
    }
    j
}

proof fn lemma_digits_value_grows(s: Seq<char>, a: int, k: int, m: int)
    requires
        0 <= a <= k <= m <= s.len(),
        forall|j: int| a <= j < m ==> is_digit(#[trigger] s[j]),
    ensures
        0 <= digits_value(s.subrange(a, k)) <= digits_value(s.subrange(a, m)),
    decreases m - k,
{
    if k == m {
        lemma_digits_value_nonneg(s, a, k);
    } else {
        lemma_digits_value_grows(s, a, k, m - 1);
        assert(s.subrange(a, m).drop_last() == s.subrange(a, m - 1));
        assert(is_digit(s[m - 1]));
    }
}

proof fn lemma_digits_value_nonneg(s: Seq<char>, a: int, k: int)
    requires
        0 <= a <= k <= s.len(),
        forall|j: int| a <= j < k ==> is_digit(#[trigger] s[j]),
    ensures
        0 <= digits_value(s.subrange(a, k)),
    decreases k - a,
{
    if k > a {
        lemma_digits_value_nonneg(s, a, k - 1);
        assert(s.subrange(a, k).drop_last() == s.subrange(a, k - 1));
        assert(is_digit(s[k - 1]));
    }
}

/// The integer that the digits in `a..b` denote, where it fits in an `i64`.
fn digits_to_i64(cs: &Vec<char>, a: usize, b: usize) -> (r: Option<i64>)
    requires
        a <= b <= cs@.len(),
        forall|k: int| a <= k < b ==> is_digit(#[trigger] cs@[k]),
    ensures
        match r {
            Some(v) => fits_i64(digits_value(cs@.subrange(a as int, b as int)))
                && v == digits_value(cs@.subrange(a as int, b as int)),
            None => !fits_i64(digits_value(cs@.subrange(a as int, b as int))),
        },
{
    let mut v: i64 = 0;
    let mut k = a;
    assert(cs@.subrange(a as int, a as int).len() == 0);
    while k < b
        invariant
            a <= k <= b <= cs@.len(),
            forall|j: int| a <= j < b ==> is_digit(#[trigger] cs@[j]),
            0 <= v,
            v == digits_value(cs@.subrange(a as int, k as int)),
        decreases b - k,
    {
        let c = cs[k];
        assert(is_digit(cs@[k as int]));
        let d = (c as u32 - '0' as u32) as i64;
        assert(cs@.subrange(a as int, k + 1).drop_last() == cs@.subrange(a as int, k as int));
        let next = match v.checked_mul(10) {
            Some(t) => t.checked_add(d),
            None => None,
        };
        match next {
            Some(t) => {
                v = t;
            },
            None => {
                proof {
                    lemma_digits_value_grows(cs@, a as int, k + 1, b as int);
                }
                return None;
            },
        }
        k = k + 1;
    }
    Some(v)
}

/// Reads the parameter that starts at `d`: a number, a quoted text or a
/// nested call, after any whitespace.
fn parse_parameter(cs: &Vec<char>, input: &str, d: usize) -> (r: Result<
    (DynParam, usize),
    ParseError,
>)
    requires
        cs@ == input@,
        d <= cs@.len(),
    ensures
        match r {
            Ok((p, e)) => param_end(cs@, d as int) == Ok::<int, (int, ParseErrorKind)>(e as int)
                && d < e <= cs@.len()
                && param_tree(cs@, d as int, p),
            Err(x) => param_end(cs@, d as int) == Err::<int, (int, ParseErrorKind)>((x.position as int, x.kind))
                && x.position <= cs@.len(),
        },
    decreases 5 * (cs@.len() - d) + 2,
{
    let p0 = skip_whitespace(cs, d);
    if p0 >= cs.len() {
        return Err(syntax_error(p0));
    }
    let c = cs[p0];
    if c >= '0' && c <= '9' {
        let q = skip_digits(cs, p0);
        if q < cs.len() && cs[q] == '.' {
            let e = skip_digits(cs, q + 1);
            let text = input.substring_char(p0, e).to_owned();
            Ok((DynParam::Value(DynType::F64(text)), e))
        } else {
            match digits_to_i64(cs, p0, q) {
                Some(v) => Ok((DynParam::Value(DynType::I64(v)), q)),
                None => Err(ParseError { position: p0, kind: ParseErrorKind::IntegerOutOfRange }),
            }
        }
    } else if c == '\'' {
        let q = find_quote(cs, p0 + 1);
        if q < cs.len() {
            let text = input.substring_char(p0 + 1, q).to_owned();
            Ok((DynParam::Value(DynType::Str(text)), q + 1))
        } else {
            Err(syntax_error(q))
        }
    } else {
        match parse_call(cs, input, p0) {
            Ok((f, e)) => Ok((DynParam::Function(f), e)),
            Err(x) => Err(x),
        }
    }
}

/// Reads the call expression that starts at `i`.
fn parse_call(cs: &Vec<char>, input: &str, i: usize) -> (r: Result<
    (DynFunction, usize),
    ParseError,
>)
    requires
        cs@ == input@,
        i <= cs@.len(),
    ensures
        match r {
            Ok((f, e)) => call_end(cs@, i as int) == Ok::<int, (int, ParseErrorKind)>(e as int)
                && i < e <= cs@.len()
                && call_tree(cs@, i as int, f),
            Err(x) => call_end(cs@, i as int) == Err::<int, (int, ParseErrorKind)>((x.position as int, x.kind))
                && x.position <= cs@.len(),
        },
    decreases 5 * (cs@.len() - i) + 1,
{
    let ghost s = cs@;
    let a = skip_whitespace(cs, i);
    let b = parse_identifier(cs, a);
    if b == a {
        return Err(syntax_error(a));
    }
    let c = skip_whitespace(cs, b);
    if c >= cs.len() || cs[c] != '(' {
        return Err(syntax_error(c));
    }
    let d = c + 1;
    let name = input.substring_char(a, b).to_owned();
    let mut params: Vec<DynParam> = Vec::new();
    let ghost mut starts: Seq<int> = Seq::empty();
    let p = skip_whitespace(cs, d);
    let mut end = d;
    if !(p < cs.len() && cs[p] == ')') {
        let mut pos = d;
        loop
            invariant_except_break
                items_end(s, d as int) == items_end(s, pos as int),
                item_starts(s, d as int) == starts + item_starts(s, pos as int),
            invariant
                d <= pos <= s.len(),
                s == cs@,
                s == input@,
                a == skip_ws(s, i as int),
                b == ident_end(s, a as int),
                c == skip_ws(s, b as int),
                i <= a < b <= c < s.len(),
                s[c as int] == '(',
                d == c + 1,
                !(d <= skip_ws(s, d as int) < s.len() && s[skip_ws(s, d as int)] == ')'),
                params@.len() == starts.len(),
                forall|k: int| 0 <= k < starts.len() ==> param_tree(s, starts[k], #[trigger] params@[k]),
            ensures
                d < end <= s.len(),
                items_end(s, d as int) == Ok::<int, (int, ParseErrorKind)>(end as int),
                item_starts(s, d as int) == starts,
                params@.len() == starts.len(),
                forall|k: int| 0 <= k < starts.len() ==> param_tree(s, starts[k], #[trigger] params@[k]),
            decreases s.len() - pos,
        {
            match parse_parameter(cs, input, pos) {
                Err(x) => {
                    assert(items_end(s, d as int) == Err::<int, (int, ParseErrorKind)>(
                        (x.position as int, x.kind),
                    ));
                    assert(args_end(s, d as int) == Err::<int, (int, ParseErrorKind)>(
                        (x.position as int, x.kind),
                    ));
                    return Err(x);
                },
                Ok((prm, e)) => {
                    params.push(prm);
                    let ghost old_starts = starts;
                    proof {
                        starts = starts.push(pos as int);
                    }
                    let g = skip_whitespace(cs, e);
                    if g < cs.len() && cs[g] == ',' {
                        proof {
                            assert(old_starts + item_starts(s, pos as int) == starts + item_starts(s, g + 1));
                        }
                        pos = g + 1;
                    } else {
                        proof {
                            assert(old_starts + item_starts(s, pos as int) == starts);
                        }
                        end = e;
                        break;
                    }
                },
            }
        }
    }
    let g = skip_whitespace(cs, end);
    if g < cs.len() && cs[g] == ')' {
        let f = DynFunction { name, params };
        proof {
            assert(arg_starts(s, c + 1) == starts);
            assert forall|k: int| 0 <= k < starts.len() implies param_tree(s, starts[k], #[trigger] f.params[k]) by {
                assert(f.params[k] == params@[k]);
            }
        }
        Ok((f, g + 1))
    } else {
        Err(syntax_error(g))
    }
}

/// Reads one call expression from the start of `input`: a function name and
/// a parenthesised, comma-separated list of parameters, each a number, a
/// quoted text or a nested call, with whitespace allowed before every token.
/// Gives the text that follows the closing parenthesis and the call tree.
pub fn parser(input: &str) -> (r: Result<(&str, DynFunction), ParseError>)
    ensures
        match r {
            Ok((rest, f)) => match call_end(input@, 0) {
                Ok(e) => rest@ == input@.subrange(e, input@.len() as int) && call_tree(input@, 0, f),
                Err(_) => false,
            },
            Err(err) => call_end(input@, 0) == Err::<int, (int, ParseErrorKind)>(
                (err.position as int, err.kind),
            )
                && err.position <= input@.len(),
        },
{
    let cs = to_chars(input);
    match parse_call(&cs, input, 0) {
        Ok((f, e)) => {
            let rest = input.substring_char(e, cs.len());
            Ok((rest, f))
        },
        Err(x) => Err(x),
    }
}

} // verus!
