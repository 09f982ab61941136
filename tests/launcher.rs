use aurora_backend::launcher::trim_text;
use aurora_backend::calc::contains_infix;
use aurora_backend::apps::{search as app_search, AppResult, CachedApp};
use aurora_backend::calc::{calc_from, same_text, search as calc_search, CalcResult};
use aurora_backend::launcher::{answer_query, query_results, SearchResult};

fn app(name: &str, id: &str) -> CachedApp {
    CachedApp {
        name: name.to_string(),
        description: format!("{} description", name),
        icon: format!("{}-icon", id),
        id: id.to_string(),
    }
}

fn hit(name: &str, score: i64) -> AppResult {
    AppResult {
        name: name.to_string(),
        description: "Application".to_string(),
        icon: "application-x-executable".to_string(),
        id: format!("{}.desktop", name),
        score,
    }
}

fn titles(v: &[SearchResult]) -> Vec<String> {
    v.iter().map(|r| r.title.clone()).collect()
}

#[test]
fn calculator_evaluates_arithmetic() {
    let r = calc_search("1+2").expect("a value");
    assert_eq!(r.value, "3");
    let r = calc_search("2 * (3 + 4)").expect("a value");
    assert_eq!(r.value, "14");
}

#[test]
fn calculator_ignores_text_without_digits() {
    assert!(calc_search("firefox").is_none());
    assert!(calc_search("").is_none());
}

#[test]
fn calculator_ignores_value_equal_to_query() {
    assert!(calc_search("5").is_none());
}

#[test]
fn calculator_ignores_what_does_not_evaluate() {
    assert!(calc_search("1 +").is_none());
}

#[test]
fn calc_from_decides_on_given_values() {
    assert_eq!(calc_from("1+1", Some("2".to_string())).map(|c| c.value), Some("2".to_string()));
    assert!(calc_from("7", Some("7".to_string())).is_none());
    assert!(calc_from("abc", Some("1".to_string())).is_none());
    assert!(calc_from("1+", None).is_none());
}

#[test]
fn same_text_compares_characters() {
    assert!(same_text("abc", "abc"));
    assert!(!same_text("abc", "abd"));
    assert!(!same_text("ab", "abc"));
}

#[test]
fn app_search_ranks_matches() {
    let apps = vec![app("Calculator", "org.gnome.Calculator"), app("Firefox", "firefox"), app("Files", "org.gnome.Nautilus")];
    let hits = app_search(&apps, "fire");
    assert!(!hits.is_empty());
    assert_eq!(hits[0].name, "Firefox");
    assert!(hits.iter().all(|h| h.score > 0));
    assert!(hits.windows(2).all(|w| w[0].score >= w[1].score));
    assert!(hits.iter().all(|h| h.name != "Calculator"));
}

#[test]
fn app_search_without_match_is_empty() {
    let apps = vec![app("Calculator", "calc")];
    assert!(app_search(&apps, "zzzzqqq").is_empty());
    assert!(app_search(&vec![], "fire").is_empty());
}

#[test]
fn query_rows_calc_then_apps() {
    let rows = query_results(
        "1+2",
        Some(CalcResult { value: "3".to_string() }),
        vec![hit("App1", 30), hit("App2", 20)],
    );
    assert_eq!(titles(&rows), vec!["3", "App1", "App2"]);
    assert_eq!(rows[0].description, "Result: 3");
    assert_eq!(rows[0].icon, "accessories-calculator-symbolic");
    assert_eq!(rows[0].result_type, 1);
    assert_eq!(rows[0].score, 120);
    assert_eq!(rows[0].exec_data, "3");
    assert_eq!(rows[1].result_type, 0);
    assert_eq!(rows[1].score, 30);
    assert_eq!(rows[1].exec_data, "App1.desktop");
}

#[test]
fn command_query_gives_trimmed_command_row() {
    let rows = query_results("> ls -la  ", None, vec![hit("App1", 30)]);
    assert_eq!(rows.len(), 1);
    assert_eq!(rows[0].title, "ls -la");
    assert_eq!(rows[0].exec_data, "ls -la");
    assert_eq!(rows[0].description, "Run command");
    assert_eq!(rows[0].icon, "utilities-terminal-symbolic");
    assert_eq!(rows[0].result_type, 2);
    assert_eq!(rows[0].score, 110);
}

#[test]
fn blank_command_gives_no_rows() {
    let rows = query_results(">    ", None, vec![hit("App1", 30)]);
    assert!(rows.is_empty());
}

#[test]
fn app_rows_capped_at_fifteen() {
    let hits: Vec<AppResult> = (0..20).map(|i| hit(&format!("A{}", i), 100 - i)).collect();
    let rows = query_results("a", None, hits);
    assert_eq!(rows.len(), 15);
    assert_eq!(rows[14].title, "A14");
}

#[test]
fn answer_query_combines_sources() {
    let apps = vec![app("Firefox", "firefox")];
    let rows = answer_query("fire", &apps);
    assert_eq!(titles(&rows), vec!["Firefox"]);
    let rows = answer_query("> fire", &apps);
    assert_eq!(titles(&rows), vec!["fire"]);
    let rows = answer_query("3*3", &apps);
    assert_eq!(rows[0].title, "9");
}

#[test]
fn calculator_skips_builtins_that_can_panic() {
    assert!(calc_search("shl(1, 64)").is_none());
    assert!(calc_search("shr(1, -1)").is_none());
    assert!(calc_search("str::substring(\"é1\", 1)").is_none());
    assert!(calc_search("math::abs(-9223372036854775807 - 1)").is_none());
}

#[test]
fn infix_search_finds_runs() {
    assert!(contains_infix("shl(1,2)", "shl"));
    assert!(contains_infix("abc", ""));
    assert!(!contains_infix("sh l", "shl"));
    assert!(!contains_infix("ab", "abc"));
}

#[test]
fn trim_removes_unicode_white_space() {
    assert_eq!(trim_text("  a b \t\n"), "a b");
    assert_eq!(trim_text("\u{3000}x\u{a0}"), "x");
    assert_eq!(trim_text("   "), "");
    assert_eq!(trim_text("x"), "x");
}
