use vstd::prelude::*;
use vstd::string::*;
use crate::calc::same_text;
use crate::launcher::{trim_text, trimmed};

verus! {

/// The pieces of `s` between line feeds, the last one unterminated (possibly empty).
pub open spec fn pieces(s: Seq<char>) -> Seq<Seq<char>>
    decreases s.len(),
{
    if s.len() == 0 {
        seq![Seq::empty()]
    } else {
        let p = pieces(s.drop_last());
        if s.last() == '\n' {
            p.push(Seq::empty())
        } else {
            p.update(p.len() - 1, p.last().push(s.last()))
        }
    }
}

proof fn lemma_pieces_nonempty(s: Seq<char>)
    ensures
        pieces(s).len() >= 1,
    decreases s.len(),
{
    if s.len() > 0 {
        lemma_pieces_nonempty(s.drop_last());
    }
}

/// A terminated line loses one trailing carriage return.
pub open spec fn strip_cr(l: Seq<char>) -> Seq<char> {
    if l.len() > 0 && l.last() == '\r' {
        l.drop_last()
    } else {
        l
    }
}

/// The lines of a text as `str::lines` gives them: split at line feeds, a carriage
/// return before a line feed dropped, no final empty line after a last line feed.
pub open spec fn lines_of(s: Seq<char>) -> Seq<Seq<char>> {
    let p = pieces(s);
    let done = p.drop_last().map_values(|l: Seq<char>| strip_cr(l));
    if p.last().len() == 0 {
        done
    } else {
        done.push(p.last())
    }
}

pub open spec fn first_eq(l: Seq<char>) -> Option<int> {
    if exists|i: int| 0 <= i < l.len() && l[i] == '=' {
        Some(choose|i: int| 0 <= i < l.len() && l[i] == '=' && forall|j: int| 0 <= j < i ==> l[j] != '=')
    } else {
        None
    }
}

pub open spec fn strip_front_quotes(s: Seq<char>) -> Seq<char>
    decreases s.len(),
{
    if s.len() > 0 && s[0] == '"' {
        strip_front_quotes(s.drop_first())
    } else {
        s
    }
}

pub open spec fn strip_back_quotes(s: Seq<char>) -> Seq<char>
    decreases s.len(),
{
    if s.len() > 0 && s.last() == '"' {
        strip_back_quotes(s.drop_last())
    } else {
        s
    }
}

/// A value with surrounding whitespace and then surrounding double quotes removed.
pub open spec fn clean_value(v: Seq<char>) -> Seq<char> {
    strip_back_quotes(strip_front_quotes(trimmed(v)))
}

pub open spec fn unknown_os() -> Seq<char> {
    "Unknown OS"@
}

/// The name chosen so far and whether the search is over.
#[verifier::opaque]
pub open spec fn after_line(state: (Seq<char>, bool), l: Seq<char>) -> (Seq<char>, bool) {
    if state.1 {
        state
    } else {
        match first_eq(l) {
            None => state,
            Some(i) => {
                let key = l.subrange(0, i);
                let val = l.subrange(i + 1, l.len() as int);
                if key == "PRETTY_NAME"@ {
                    (clean_value(val), true)
                } else if key == "NAME"@ && state.0 == unknown_os() {
                    (clean_value(val), false)
                } else {
                    state
                }
            },
        }
    }
}

pub open spec fn scan_lines(lines: Seq<Seq<char>>) -> (Seq<char>, bool)
    decreases lines.len(),
{
    if lines.len() == 0 {
        (unknown_os(), false)
    } else {
        after_line(scan_lines(lines.drop_last()), lines.last())
    }
}

/// The operating system's name in an os-release text, read line by line from
/// "Unknown OS": a PRETTY_NAME's value is taken and ends the search; a NAME's value is
/// taken while the name chosen so far reads "Unknown OS" (so a NAME whose value is
/// itself "Unknown OS" leaves room for a later one).
pub open spec fn os_name_of(content: Seq<char>) -> Seq<char> {
    scan_lines(lines_of(content)).0
}

fn strip_quotes(v: &str) -> (r: String)
    ensures
        r@ == strip_back_quotes(strip_front_quotes(v@)),
{
    let n = v.unicode_len();
    let mut a: usize = 0;
    assert(v@.subrange(0, n as int) =~= v@);
    while a < n && v.get_char(a) == '"'
        invariant
            n == v@.len(),
            a <= n,
            strip_front_quotes(v@) == strip_front_quotes(v@.subrange(a as int, n as int)),
        decreases n - a,
    {
        assert(v@.subrange(a as int, n as int).drop_first() =~= v@.subrange(a + 1, n as int));
        a += 1;
    }
    let ghost front = v@.subrange(a as int, n as int);
    assert(strip_front_quotes(front) == front);
    let mut b: usize = n;
    while b > a && v.get_char(b - 1) == '"'
        invariant
            n == v@.len(),
            a <= b <= n,
            strip_front_quotes(v@) == v@.subrange(a as int, n as int),
            strip_back_quotes(v@.subrange(a as int, n as int)) == strip_back_quotes(v@.subrange(a as int, b as int)),
        decreases b - a,
    {
        assert(v@.subrange(a as int, b as int).drop_last() =~= v@.subrange(a as int, b - 1));
        b -= 1;
    }
    proof {
        assert(v@.subrange(0, n as int) =~= v@);
    }
    String::from_str(v.substring_char(a, b))
}

fn step(name: String, done: bool, l: &str) -> (r: (String, bool))
    ensures
        (r.0@, r.1) == after_line((name@, done), l@),
{
    reveal(after_line);
    if done {
        return (name, done);
    }
    let n = l.unicode_len();
    let mut i: usize = 0;
    while i < n && l.get_char(i) != '='
        invariant
            n == l@.len(),
            i <= n,
            forall|j: int| 0 <= j < i ==> l@[j] != '=',
        decreases n - i,
    {
        i += 1;
    }
    if i == n {
        return (name, done);
    }
    proof {
        let c = choose|k: int| 0 <= k < l@.len() && l@[k] == '=' && forall|j: int| 0 <= j < k ==> l@[j] != '=';
        assert(c == i);
    }
    let key = l.substring_char(0, i);
    let val = l.substring_char(i + 1, n);
    if same_text(key, "PRETTY_NAME") {
        (strip_quotes(trim_text(val).as_str()), true)
    } else if same_text(key, "NAME") && same_text(name.as_str(), "Unknown OS") {
        (strip_quotes(trim_text(val).as_str()), false)
    } else {
        (name, done)
    }
}

proof fn lemma_piece_step(pre: Seq<char>, c: char, lines: Seq<Seq<char>>)
    requires
        pieces(pre).drop_last().map_values(|l: Seq<char>| strip_cr(l)) == lines,
    ensures
        pieces(pre.push(c)).len() >= 1,
        c == '\n' ==> pieces(pre.push(c)).drop_last().map_values(|l: Seq<char>| strip_cr(l))
            == lines.push(strip_cr(pieces(pre).last())),
        c == '\n' ==> pieces(pre.push(c)).last() == Seq::<char>::empty(),
        c != '\n' ==> pieces(pre.push(c)).drop_last().map_values(|l: Seq<char>| strip_cr(l))
            == lines,
        c != '\n' ==> pieces(pre.push(c)).last() == pieces(pre).last().push(c),
{
    let post = pre.push(c);
    assert(post.drop_last() =~= pre);
    lemma_pieces_nonempty(pre);
    lemma_pieces_nonempty(post);
    let pp = pieces(pre);
    if c == '\n' {
        assert(pieces(post).drop_last() =~= pp);
        assert(pp =~= pp.drop_last().push(pp.last()));
        assert(pp.map_values(|l: Seq<char>| strip_cr(l)) =~= pp.drop_last().map_values(
            |l: Seq<char>| strip_cr(l),
        ).push(strip_cr(pp.last())));
    } else {
        assert(pieces(post).drop_last() =~= pp.drop_last());
    }
}

fn line_at(content: &str, start: usize, end: usize) -> (line: &str)
    requires
        start <= end <= content@.len(),
    ensures
        line@ == strip_cr(content@.subrange(start as int, end as int)),
{
    let raw = content.substring_char(start, end);
    let m = raw.unicode_len();
    if m > 0 && raw.get_char(m - 1) == '\r' {
        let l = raw.substring_char(0, m - 1);
        assert(l@ =~= raw@.drop_last());
        l
    } else {
        raw
    }
}

/// The operating system's display name from the text of an os-release file.
pub fn os_name_from(content: &str) -> (r: String)
    ensures
        r@ == os_name_of(content@),
{
    let n = content.unicode_len();
    let mut name = String::from_str("Unknown OS");
    let mut done = false;
    let mut start: usize = 0;
    let mut i: usize = 0;
    let ghost mut lines: Seq<Seq<char>> = Seq::empty();
    proof {
        reveal_strlit("Unknown OS");
        assert(content@.subrange(0, 0) =~= Seq::<char>::empty());
    }
    while i < n
        invariant
            n == content@.len(),
            start <= i <= n,
            pieces(content@.subrange(0, i as int)).drop_last().map_values(|l: Seq<char>| strip_cr(l))
                == lines,
            pieces(content@.subrange(0, i as int)).len() >= 1,
            pieces(content@.subrange(0, i as int)).last() == content@.subrange(start as int, i as int),
            (name@, done) == scan_lines(lines),
        decreases n - i,
    {
        let c = content.get_char(i);
        proof {
            let pre = content@.subrange(0, i as int);
            assert(content@.subrange(0, i + 1) =~= pre.push(c));
            lemma_piece_step(pre, c, lines);
        }
        if c == '\n' {
            let line = line_at(content, start, i);
            let next = step(name, done, line);
            name = next.0;
            done = next.1;
            proof {
                assert(lines.push(line@).drop_last() =~= lines);
                lines = lines.push(line@);
                assert(content@.subrange(i + 1, i + 1) =~= Seq::<char>::empty());
            }
            start = i + 1;
        } else {
            assert(content@.subrange(start as int, i as int).push(c) =~= content@.subrange(
                start as int,
                i + 1,
            ));
        }
        i += 1;
    }
    proof {
        assert(content@.subrange(0, n as int) =~= content@);
    }
    if start < n {
        let last = content.substring_char(start, n);
        proof {
            assert(lines.push(last@).drop_last() =~= lines);
        }
        let next = step(name, done, last);
        next.0
    } else {
        proof {
            assert(content@.subrange(start as int, n as int) =~= Seq::<char>::empty());
        }
        name
    }
}

} // verus!
