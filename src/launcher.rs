use vstd::prelude::*;
use vstd::string::*;
use crate::apps::{AppResult, CachedApp, by_score, hit_views, hits_for, score_class};
use crate::calc::{CalcResult, calc_hit};

verus! {

/// Kind code of an application row.
pub const KIND_APP: u32 = 0;

/// Kind code of a calculator row.
pub const KIND_CALC: u32 = 1;

/// Kind code of a command row.
pub const KIND_COMMAND: u32 = 2;

pub const CALC_SCORE: i32 = 120;

pub const COMMAND_SCORE: i32 = 110;

/// At most this many application rows are listed.
pub const MAX_APP_ROWS: usize = 15;

/// One row of the launcher's answer to a query.
pub struct SearchResult {
    pub title: String,
    pub description: String,
    pub icon: String,
    pub result_type: u32,
    pub score: i32,
    pub exec_data: String,
}

/// The Unicode White_Space characters, those `char::is_whitespace` accepts.
pub open spec fn is_white_space(c: char) -> bool {
    ||| '\u{9}' <= c && c <= '\u{d}'
    ||| c == ' '
    ||| c == '\u{85}'
    ||| c == '\u{a0}'
    ||| c == '\u{1680}'
    ||| '\u{2000}' <= c && c <= '\u{200a}'
    ||| c == '\u{2028}'
    ||| c == '\u{2029}'
    ||| c == '\u{202f}'
    ||| c == '\u{205f}'
    ||| c == '\u{3000}'
}

pub open spec fn strip_front_ws(s: Seq<char>) -> Seq<char>
    decreases s.len(),
{
    if s.len() > 0 && is_white_space(s[0]) {
        strip_front_ws(s.drop_first())
    } else {
        s
    }
}

pub open spec fn strip_back_ws(s: Seq<char>) -> Seq<char>
    decreases s.len(),
{
    if s.len() > 0 && is_white_space(s.last()) {
        strip_back_ws(s.drop_last())
    } else {
        s
    }
}

/// The text with leading and trailing white space removed, as `str::trim` does.
pub open spec fn trimmed(s: Seq<char>) -> Seq<char> {
    strip_back_ws(strip_front_ws(s))
}

fn white_space(c: char) -> (r: bool)
    ensures
        r == is_white_space(c),
{
    ('\u{9}' <= c && c <= '\u{d}') || c == ' ' || c == '\u{85}' || c == '\u{a0}' || c
        == '\u{1680}' || ('\u{2000}' <= c && c <= '\u{200a}') || c == '\u{2028}' || c
        == '\u{2029}' || c == '\u{202f}' || c == '\u{205f}' || c == '\u{3000}'
}

/// The text with leading and trailing white space removed.
pub fn trim_text(v: &str) -> (r: String)
    ensures
        r@ == trimmed(v@),
{
    let n = v.unicode_len();
    let mut a: usize = 0;
    assert(v@.subrange(0, n as int) =~= v@);
    while a < n && white_space(v.get_char(a))
        invariant
            n == v@.len(),
            a <= n,
            strip_front_ws(v@) == strip_front_ws(v@.subrange(a as int, n as int)),
        decreases n - a,
    {
        assert(v@.subrange(a as int, n as int).drop_first() =~= v@.subrange(a + 1, n as int));
        a += 1;
    }
    let mut b: usize = n;
    while b > a && white_space(v.get_char(b - 1))
        invariant
            n == v@.len(),
            a <= b <= n,
            strip_front_ws(v@) == v@.subrange(a as int, n as int),
            strip_back_ws(v@.subrange(a as int, n as int)) == strip_back_ws(
                v@.subrange(a as int, b as int),
            ),
        decreases b - a,
    {
        assert(v@.subrange(a as int, b as int).drop_last() =~= v@.subrange(a as int, b - 1));
        b -= 1;
    }
    String::from_str(v.substring_char(a, b))
}

/// A query that asks to run a command starts with "> ".
pub open spec fn is_command_query(q: Seq<char>) -> bool {
    q.len() >= 2 && q[0] == '>' && q[1] == ' '
}

/// The command a query asks to run: what follows "> ", trimmed, when that is not empty.
pub open spec fn command_of(q: Seq<char>) -> Option<Seq<char>> {
    if is_command_query(q) && trimmed(q.subrange(2, q.len() as int)).len() > 0 {
        Some(trimmed(q.subrange(2, q.len() as int)))
    } else {
        None
    }
}

pub open spec fn calc_text(calc: Option<CalcResult>) -> Option<Seq<char>> {
    match calc {
        Some(c) => Some(c.value@),
        None => None,
    }
}

pub open spec fn is_row(
    r: SearchResult,
    title: Seq<char>,
    description: Seq<char>,
    icon: Seq<char>,
    kind: u32,
    score: i32,
    exec: Seq<char>,
) -> bool {
    &&& r.title@ == title
    &&& r.description@ == description
    &&& r.icon@ == icon
    &&& r.result_type == kind
    &&& r.score == score
    &&& r.exec_data@ == exec
}

pub open spec fn is_calc_row(r: SearchResult, value: Seq<char>) -> bool {
    is_row(
        r,
        value,
        "Result: "@ + value,
        "accessories-calculator-symbolic"@,
        KIND_CALC,
        CALC_SCORE,
        value,
    )
}

pub open spec fn is_command_row(r: SearchResult, cmd: Seq<char>) -> bool {
    is_row(r, cmd, "Run command"@, "utilities-terminal-symbolic"@, KIND_COMMAND, COMMAND_SCORE, cmd)
}

pub open spec fn is_app_row(r: SearchResult, a: AppResult) -> bool {
    is_row(r, a.name@, a.description@, a.icon@, KIND_APP, a.score as i32, a.id@)
}

pub open spec fn app_rows(q: Seq<char>, n: nat) -> nat {
    if is_command_query(q) {
        0
    } else if n < MAX_APP_ROWS {
        n
    } else {
        MAX_APP_ROWS as nat
    }
}

/// The rows of `out` are: the calculator's, if any; then the command's, if the query
/// names one; then, unless the query is a command, the first fifteen applications.
pub open spec fn is_answer(
    out: Seq<SearchResult>,
    q: Seq<char>,
    calc: Option<Seq<char>>,
    apps: Seq<AppResult>,
) -> bool {
    let c: int = if calc is Some {
        1
    } else {
        0
    };
    let m: int = if command_of(q) is Some {
        1
    } else {
        0
    };
    &&& out.len() == c + m + app_rows(q, apps.len())
    &&& calc matches Some(v) ==> is_calc_row(out[0], v)
    &&& command_of(q) matches Some(t) ==> is_command_row(out[c], t)
    &&& forall|j: int|
        0 <= j < app_rows(q, apps.len()) ==> is_app_row(#[trigger] out[c + m + j], apps[j])
}

fn starts_as_command(q: &str) -> (r: bool)
    ensures
        r == is_command_query(q@),
{
    let n = q.unicode_len();
    n >= 2 && q.get_char(0) == '>' && q.get_char(1) == ' '
}

fn text(s: &str) -> (r: String)
    ensures
        r@ == s@,
{
    String::from_str(s)
}

/// Assembles the launcher's rows for `query` from the calculator's hit and the
/// applications' hits (best first).
pub fn query_results(query: &str, calc: Option<CalcResult>, apps: Vec<AppResult>) -> (out: Vec<
    SearchResult,
>)
    ensures
        is_answer(
            out@,
            query@,
            calc_text(calc),
            apps@,
        ),
{
    let mut out: Vec<SearchResult> = Vec::new();
    match &calc {
        Some(c) => {
            let description = text("Result: ").concat(c.value.as_str());
            out.push(
                SearchResult {
                    title: c.value.clone(),
                    description,
                    icon: text("accessories-calculator-symbolic"),
                    result_type: KIND_CALC,
                    score: CALC_SCORE,
                    exec_data: c.value.clone(),
                },
            );
        },
        None => {},
    }
    let is_command = starts_as_command(query);
    if is_command {
        let n = query.unicode_len();
        let cmd = trim_text(query.substring_char(2, n));
        if cmd.as_str().unicode_len() > 0 {
            out.push(
                SearchResult {
                    title: cmd.clone(),
                    description: text("Run command"),
                    icon: text("utilities-terminal-symbolic"),
                    result_type: KIND_COMMAND,
                    score: COMMAND_SCORE,
                    exec_data: cmd,
                },
            );
        }
    }
    let ghost base = out.len();
    let ghost head = out@;
    let ghost c: int = if calc_text(calc) is Some {
        1
    } else {
        0
    };
    if !is_command {
        let take = if apps.len() < MAX_APP_ROWS {
            apps.len()
        } else {
            MAX_APP_ROWS
        };
        let mut j: usize = 0;
        while j < take
            invariant
                take <= apps.len(),
                take == app_rows(query@, apps.len() as nat),
                j <= take,
                out.len() == base + j,
                head.len() == base,
                base == c + (if command_of(query@) is Some {
                    1int
                } else {
                    0int
                }),
                calc_text(calc) matches Some(v) ==> is_calc_row(head[0], v),
                command_of(query@) matches Some(t) ==> is_command_row(head[c], t),
                c == (if calc_text(calc) is Some {
                    1int
                } else {
                    0int
                }),
                forall|x: int| 0 <= x < base ==> out@[x] == head[x],
                forall|x: int| 0 <= x < j ==> is_app_row(#[trigger] out@[base + x], apps@[x]),
            decreases take - j,
        {
            let a = &apps[j];
            out.push(
                SearchResult {
                    title: a.name.clone(),
                    description: a.description.clone(),
                    icon: a.icon.clone(),
                    result_type: KIND_APP,
                    score: #[verifier::truncate] (a.score as i32),
                    exec_data: a.id.clone(),
                },
            );
            j += 1;
        }
    }
    out
}

/// The launcher's answer to `query` over the installed applications: the calculator's
/// row, the command's row, and the best-scoring applications, as `query_results` lays
/// them out; applications are not searched for a command query.
pub fn answer_query(query: &str, apps: &Vec<CachedApp>) -> (out: Vec<SearchResult>)
    ensures
        exists|hits: Seq<AppResult>|
            {
                &&& is_command_query(query@) ==> hits.len() == 0
                &&& !is_command_query(query@) ==> by_score(hit_views(hits)) && forall|k: i64|
                    #[trigger] score_class(hit_views(hits), k) == score_class(hits_for(apps@, query@), k)
                &&& is_answer(out@, query@, calc_hit(query@), hits)
            },
{
    let calc = crate::calc::search(query);
    let hits = if starts_as_command(query) {
        Vec::new()
    } else {
        crate::apps::search(apps, query)
    };
    let ghost h = hits@;
    let out = query_results(query, calc, hits);
    assert(calc_text(calc) == calc_hit(query@));
    assert(is_answer(out@, query@, calc_hit(query@), h));
    out
}

} // verus!
