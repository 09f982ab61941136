use vstd::prelude::*;
use vstd::string::*;

verus! {

/// A calculator hit: the evaluated value as text.
pub struct CalcResult {
    pub value: String,
}

/// The display text of what evaluating an expression gives, absent when it does not evaluate.
pub uninterp spec fn evaluated_text(expr: Seq<char>) -> Option<Seq<char>>;

/// Whether `p` occurs in `s` as a run of consecutive characters.
pub open spec fn has_infix(s: Seq<char>, p: Seq<char>) -> bool {
    exists|i: int| 0 <= i && i + p.len() <= s.len() && #[trigger] s.subrange(i, i + p.len()) == p
}

/// Whether an expression may name an evaluator builtin that panics on some arguments:
/// `str::substring` slices by byte offsets, `shl` and `shr` shift without a range check,
/// and `math::abs` overflows on the least integer.
pub open spec fn names_unsafe_builtin(q: Seq<char>) -> bool {
    has_infix(q, "substring"@) || has_infix(q, "shl"@) || has_infix(q, "shr"@) || has_infix(
        q,
        "abs"@,
    )
}

/// Relies on `evalexpr::eval` (built without its `rand` feature, so no random builtin) and
/// on the `Display` of its value: both depend on the expression alone. Every builtin whose
/// code can panic is left out by the `requires`; the others and the operators check their
/// arithmetic and report errors.
#[verifier::external_body]
fn eval_to_text(expr: &str) -> (r: Option<String>)
    requires
        !names_unsafe_builtin(expr@),
    ensures
        match r {
            Some(t) => evaluated_text(expr@) == Some(t@),
            None => evaluated_text(expr@) is None,
        },
{
    match evalexpr::eval(expr) {
        Ok(v) => Some(v.to_string()),
        Err(_) => None,
    }
}

/// Whether `p` occurs in `s`.
pub fn contains_infix(s: &str, p: &str) -> (r: bool)
    ensures
        r == has_infix(s@, p@),
{
    let n = s.unicode_len();
    let m = p.unicode_len();
    if m > n {
        return false;
    }
    let mut i: usize = 0;
    while i <= n - m
        invariant
            n == s@.len(),
            m == p@.len(),
            m <= n,
            i <= n - m,
            forall|j: int| 0 <= j < i ==> #[trigger] s@.subrange(j, j + p@.len()) != p@,
        decreases n - m - i,
    {
        if same_text(s.substring_char(i, i + m), p) {
            return true;
        }
        if i == n - m {
            return false;
        }
        i += 1;
    }
    false
}

fn names_unsafe_call(q: &str) -> (r: bool)
    ensures
        r == names_unsafe_builtin(q@),
{
    contains_infix(q, "substring") || contains_infix(q, "shl") || contains_infix(q, "shr")
        || contains_infix(q, "abs")
}

/// The calculator's answer to a query: none for a query that may name a panicking
/// builtin, else the answer from what evaluating it gives.
pub open spec fn calc_hit(query: Seq<char>) -> Option<Seq<char>> {
    if names_unsafe_builtin(query) {
        None
    } else {
        calc_answer(query, evaluated_text(query))
    }
}

pub open spec fn has_ascii_digit(s: Seq<char>) -> bool {
    exists|i: int| 0 <= i < s.len() && '0' <= #[trigger] s[i] && s[i] <= '9'
}

/// The calculator's answer to `query`, given what evaluating it gave.
pub open spec fn calc_answer(query: Seq<char>, evaluated: Option<Seq<char>>) -> Option<Seq<char>> {
    if !has_ascii_digit(query) {
        None
    } else {
        match evaluated {
            Some(t) => if t == query {
                None
            } else {
                Some(t)
            },
            None => None,
        }
    }
}

pub open spec fn opt_text(o: Option<String>) -> Option<Seq<char>> {
    match o {
        Some(t) => Some(t@),
        None => None,
    }
}

fn contains_ascii_digit(s: &str) -> (r: bool)
    ensures
        r == has_ascii_digit(s@),
{
    let n = s.unicode_len();
    let mut i: usize = 0;
    while i < n
        invariant
            n == s@.len(),
            i <= n,
            forall|j: int| 0 <= j < i ==> !('0' <= #[trigger] s@[j] && s@[j] <= '9'),
        decreases n - i,
    {
        let c = s.get_char(i);
        if '0' <= c && c <= '9' {
            return true;
        }
        i += 1;
    }
    false
}

/// Whether two texts hold the same characters.
pub fn same_text(a: &str, b: &str) -> (r: bool)
    ensures
        r == (a@ == b@),
{
    let n = a.unicode_len();
    if n != b.unicode_len() {
        return false;
    }
    let mut i: usize = 0;
    while i < n
        invariant
            n == a@.len(),
            n == b@.len(),
            i <= n,
            forall|j: int| 0 <= j < i ==> a@[j] == b@[j],
        decreases n - i,
    {
        if a.get_char(i) != b.get_char(i) {
            return false;
        }
        i += 1;
    }
    assert(a@ =~= b@);
    true
}

/// The calculator's answer to `query` from the text its evaluation gave (absent when it
/// did not evaluate): nothing for a query without a digit or whose value reads as the
/// query itself.
pub fn calc_from(query: &str, evaluated: Option<String>) -> (r: Option<CalcResult>)
    ensures
        match r {
            Some(c) => calc_answer(query@, opt_text(evaluated)) == Some(c.value@),
            None => calc_answer(query@, opt_text(evaluated)) is None,
        },
{
    if !contains_ascii_digit(query) {
        return None;
    }
    match evaluated {
        Some(t) => {
            if same_text(t.as_str(), query) {
                None
            } else {
                Some(CalcResult { value: t })
            }
        },
        None => None,
    }
}

/// The calculator's hit for a launcher query, if it is arithmetic worth showing; a query
/// that may name a panicking builtin is not evaluated.
pub fn search(query: &str) -> (r: Option<CalcResult>)
    ensures
        names_unsafe_builtin(query@) ==> r is None,
        match r {
            Some(c) => calc_hit(query@) == Some(c.value@),
            None => calc_hit(query@) is None,
        },
{
    if !contains_ascii_digit(query) {
        return None;
    }
    if names_unsafe_call(query) {
        return None;
    }
    let evaluated = eval_to_text(query);
    calc_from(query, evaluated)
}

} // verus!
