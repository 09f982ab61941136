use vstd::prelude::*;
use vstd::string::*;

verus! {

pub const SECONDS_PER_DAY: u64 = 86400;

pub const SECONDS_PER_HOUR: u64 = 3600;

pub const SECONDS_PER_MINUTE: u64 = 60;

pub open spec fn digit_char(d: nat) -> char {
    if d == 0 { '0' } else if d == 1 { '1' } else if d == 2 { '2' } else if d == 3 { '3' }
    else if d == 4 { '4' } else if d == 5 { '5' } else if d == 6 { '6' } else if d == 7 { '7' }
    else if d == 8 { '8' } else { '9' }
}

/// The decimal digits of `n`, without leading zeros.
pub open spec fn decimal(n: nat) -> Seq<char>
    decreases n,
{
    if n < 10 {
        seq![digit_char(n)]
    } else {
        decimal(n / 10).push(digit_char(n % 10))
    }
}

fn digit_text(d: u64) -> (r: &'static str)
    requires
        d < 10,
    ensures
        r@ == seq![digit_char(d as nat)],
{
    proof {
        reveal_strlit("0");
        reveal_strlit("1");
        reveal_strlit("2");
        reveal_strlit("3");
        reveal_strlit("4");
        reveal_strlit("5");
        reveal_strlit("6");
        reveal_strlit("7");
        reveal_strlit("8");
        reveal_strlit("9");
    }
    let r = if d == 0 {
        "0"
    } else if d == 1 {
        "1"
    } else if d == 2 {
        "2"
    } else if d == 3 {
        "3"
    } else if d == 4 {
        "4"
    } else if d == 5 {
        "5"
    } else if d == 6 {
        "6"
    } else if d == 7 {
        "7"
    } else if d == 8 {
        "8"
    } else {
        "9"
    };
    assert(r@ =~= seq![digit_char(d as nat)]);
    r
}

/// The decimal digits of `n`.
pub fn decimal_text(n: u64) -> (r: String)
    ensures
        r@ == decimal(n as nat),
    decreases n,
{
    if n < 10 {
        String::from_str(digit_text(n))
    } else {
        let mut r = decimal_text(n / 10);
        r.append(digit_text(n % 10));
        assert(r@ =~= decimal((n / 10) as nat).push(digit_char((n % 10) as nat)));
        r
    }
}

/// "1 day", "2 days": a count and its unit, plural above one.
pub open spec fn count_text(n: nat, unit: Seq<char>) -> Seq<char> {
    decimal(n) + " "@ + unit + if n > 1 {
        "s"@
    } else {
        Seq::empty()
    }
}

pub open spec fn part_if(n: nat, unit: Seq<char>) -> Seq<Seq<char>> {
    if n > 0 {
        seq![count_text(n, unit)]
    } else {
        Seq::empty()
    }
}

/// The non-zero days, hours and minutes of an uptime, each as text.
pub open spec fn uptime_parts(secs: nat) -> Seq<Seq<char>> {
    part_if(secs / 86400, "day"@) + part_if((secs % 86400) / 3600, "hour"@) + part_if(
        (secs % 3600) / 60,
        "minute"@,
    )
}

/// The parts joined by ", ".
pub open spec fn joined(parts: Seq<Seq<char>>) -> Seq<char>
    decreases parts.len(),
{
    if parts.len() == 0 {
        Seq::empty()
    } else if parts.len() == 1 {
        parts[0]
    } else {
        joined(parts.drop_last()) + ", "@ + parts.last()
    }
}

/// An uptime as text: "2 days, 3 hours, 1 minute", or "just now" under a minute.
pub open spec fn uptime_text(secs: nat) -> Seq<char> {
    if uptime_parts(secs).len() == 0 {
        "just now"@
    } else {
        joined(uptime_parts(secs))
    }
}

fn count_part(n: u64, unit: &str) -> (r: String)
    ensures
        r@ == count_text(n as nat, unit@),
{
    let mut r = decimal_text(n);
    r.append(" ");
    r.append(unit);
    if n > 1 {
        r.append("s");
    }
    proof {
        reveal_strlit(" ");
        reveal_strlit("s");
        if n <= 1 {
            assert(r@ =~= count_text(n as nat, unit@));
        }
    }
    r
}

/// Formats an uptime given in whole seconds.
pub fn format_uptime(seconds: u64) -> (r: String)
    ensures
        r@ == uptime_text(seconds as nat),
{
    let days = seconds / SECONDS_PER_DAY;
    let hours = (seconds % SECONDS_PER_DAY) / SECONDS_PER_HOUR;
    let minutes = (seconds % SECONDS_PER_HOUR) / SECONDS_PER_MINUTE;
    let mut parts: Vec<String> = Vec::new();
    if days > 0 {
        parts.push(count_part(days, "day"));
    }
    if hours > 0 {
        parts.push(count_part(hours, "hour"));
    }
    if minutes > 0 {
        parts.push(count_part(minutes, "minute"));
    }
    let ghost texts = parts@.map_values(|s: String| s@);
    assert(texts =~= uptime_parts(seconds as nat));
    if parts.len() == 0 {
        return String::from_str("just now");
    }
    let mut r = parts[0].clone();
    let mut i: usize = 1;
    while i < parts.len()
        invariant
            1 <= i <= parts.len(),
            texts == parts@.map_values(|s: String| s@),
            r@ == joined(texts.subrange(0, i as int)),
        decreases parts.len() - i,
    {
        r.append(", ");
        r.append(parts[i].as_str());
        proof {
            let next = texts.subrange(0, i + 1);
            assert(next.drop_last() =~= texts.subrange(0, i as int));
        }
        i += 1;
    }
    assert(texts.subrange(0, parts.len() as int) =~= texts);
    r
}

} // verus!
