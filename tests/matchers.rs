use request_matcher::matchers::{Matcher, Matchers};
use request_matcher::request::Request;

fn method(m: &str) -> Matcher {
    Matcher::Method(m.into())
}
fn path(p: &str) -> Matcher {
    Matcher::Path(p.into())
}
fn q_eq(k: &str, v: &str) -> Matcher {
    Matcher::QueryEq(k.into(), v.into())
}
fn q_ex(k: &str) -> Matcher {
    Matcher::QueryExists(k.into())
}
fn q_miss(k: &str) -> Matcher {
    Matcher::QueryMiss(k.into())
}
fn h_eq(k: &str, v: &str) -> Matcher {
    Matcher::HeaderEq(k.into(), v.into())
}
fn h_ex(k: &str) -> Matcher {
    Matcher::HeaderExists(k.into())
}
fn h_miss(k: &str) -> Matcher {
    Matcher::HeaderMiss(k.into())
}
fn f_eq(f: &str) -> Matcher {
    Matcher::FragmentEq(f.into())
}
fn b_eq(b: &str) -> Matcher {
    Matcher::BodyEq(b.into())
}

/// `invalid` reports `valid`, and `valid` is then met.
fn once(invalid: Matcher, valid: Matcher, request: Request) {
    assert_eq!(invalid.validate(&request), Some(valid.clone()));
    assert_eq!(valid.validate(&request), None);
}

fn all_valid(inner: &[Matcher], request: Request) {
    let ms = Matchers::new(inner.to_vec());
    assert!(ms.is_matched(&request));
    assert_eq!(ms.validate(&request), None);
}

fn all_invalid(inner: &[Matcher], reports: &[Matcher], request: Request) {
    let ms = Matchers::new(inner.to_vec());
    assert!(!ms.is_matched(&request));
    assert_eq!(ms.validate(&request), Some(reports.to_vec()));
}

#[test]
fn once_method_default_is_get() {
    once(method("post"), method("GET"), Request::default());
}
#[test]
fn once_method_reports_actual() {
    once(method("PUT"), method("POST"), Request::default().with_method("POST"));
}
#[test]
fn once_path_wrong() {
    once(path("/invalid/path"), path("/some/path"), Request::parse("/some/path"));
}
#[test]
fn once_path_default() {
    once(path("/some"), path("/"), Request::default());
}
#[test]
fn once_query_other_value() {
    once(q_eq("q_key", "q2_val"), q_eq("q_key", "q_val"), Request::parse("/?q_key=q_val"));
}
#[test]
fn once_query_miss_present() {
    once(q_miss("q_key"), q_ex("q_key"), Request::parse("/?q_key=q_val"));
}
#[test]
fn once_query_exists_absent() {
    once(q_ex("miss_key"), q_miss("miss_key"), Request::parse("/?q_key=q_val"));
}
#[test]
fn once_query_eq_absent() {
    once(q_eq("miss_key", "some_val"), q_miss("miss_key"), Request::parse("/?q_key=q_val"));
}
#[test]
fn once_query_miss_flag_present() {
    once(q_miss("exists_key"), q_ex("exists_key"), Request::parse("/?q_key=q_val&exists_key"));
}
#[test]
fn once_fragment_other() {
    once(f_eq("anchor-incorrect"), f_eq("anchor"), Request::parse("/path#anchor"));
}
#[test]
fn once_fragment_miss_present() {
    once(Matcher::FragmentMiss, f_eq("anchor"), Request::parse("/path#anchor"));
}
#[test]
fn once_fragment_eq_absent() {
    once(f_eq("anchor"), Matcher::FragmentMiss, Request::parse("/path"));
}
#[test]
fn once_header_other_value() {
    let r = Request::default().with_header("eq-header", "eq-value");
    once(h_eq("eq-header", "eq-incorrect-value"), h_eq("eq-header", "eq-value"), r);
}
#[test]
fn once_header_miss_present() {
    let r = Request::default().with_header("eq-header", "eq-value");
    once(h_miss("eq-header"), h_ex("eq-header"), r);
}
#[test]
fn once_header_exists_absent() {
    let r = Request::default().with_header("eq-header", "eq-value");
    once(h_ex("miss-header"), h_miss("miss-header"), r);
}
#[test]
fn once_header_eq_absent() {
    let r = Request::default().with_header("eq-header", "eq-value");
    once(h_eq("miss-header", "some-miss-val"), h_miss("miss-header"), r);
}
#[test]
fn once_header_miss_other_present() {
    let r = Request::default().with_header("exists-header", "some-exists-value");
    once(h_miss("exists-header"), h_ex("exists-header"), r);
}
#[test]
fn once_body_eq_absent() {
    once(b_eq("some body"), Matcher::BodyMiss, Request::default());
}
#[test]
fn once_body_other() {
    once(b_eq("some incorrect body"), b_eq("some body"), Request::default().with_body("some body"));
}
#[test]
fn once_body_miss_present() {
    once(Matcher::BodyMiss, b_eq("some body"), Request::default().with_body("some body"));
}

#[test]
fn valid_empty() {
    all_valid(&[], Request::default());
}
#[test]
fn valid_method() {
    all_valid(&[method("GET")], Request::default());
}
#[test]
fn valid_method_path() {
    all_valid(
        &[method("POST"), path("/some/path")],
        Request::parse("/some/path").with_method("POST"),
    );
}
#[test]
fn valid_query_eq() {
    all_valid(&[q_eq("key-eq", "val-eq")], Request::parse("/?key-eq=val-eq"));
}
#[test]
fn valid_query_exists_flag() {
    all_valid(&[q_ex("key-exists")], Request::parse("/?key-exists"));
}
#[test]
fn valid_query_miss() {
    all_valid(&[q_miss("miss-key")], Request::parse("/?key-exists=some-val"));
}
#[test]
fn valid_query_with_method_path() {
    all_valid(
        &[method("PUT"), path("/path/with/query"), q_eq("key-eq", "val-eq"), q_ex("key-exists"), q_miss("miss-key")],
        Request::parse("/path/with/query?key-eq=val-eq&key-exists=some-val").with_method("PUT"),
    );
}
#[test]
fn valid_header_eq() {
    all_valid(&[h_eq("key-eq", "val-eq")], Request::default().with_header("key-eq", "val-eq"));
}
#[test]
fn valid_header_exists() {
    all_valid(&[h_ex("key-exists")], Request::default().with_header("key-exists", "some-value"));
}
#[test]
fn valid_header_miss() {
    all_valid(&[h_miss("miss-key")], Request::default());
}
#[test]
fn valid_header_with_method_path() {
    all_valid(
        &[method("GET"), path("/path/with/header"), h_eq("key-eq", "val-eq"), h_ex("key-exists"), h_miss("miss-key")],
        Request::parse("/path/with/header")
            .with_header("key-eq", "val-eq")
            .with_header("key-exists", "some-value"),
    );
}
#[test]
fn valid_path_fragment_miss() {
    all_valid(&[path("/path"), Matcher::FragmentMiss], Request::parse("/path"));
}
#[test]
fn valid_path_fragment_eq() {
    all_valid(&[path("/path"), f_eq("anchor")], Request::parse("/path#anchor"));
}
#[test]
fn valid_path_body_miss() {
    all_valid(&[path("/without/body"), Matcher::BodyMiss], Request::parse("/without/body"));
}
#[test]
fn valid_body_eq() {
    all_valid(&[b_eq("some body")], Request::default().with_body("some body"));
}

#[test]
fn invalid_method() {
    all_invalid(&[path("/path"), method("POST")], &[method("GET")], Request::parse("/path"));
}
#[test]
fn invalid_path() {
    all_invalid(&[method("GET"), path("/wrong")], &[path("/correct")], Request::parse("/correct"));
}
#[test]
fn invalid_query_eq() {
    all_invalid(&[q_eq("key", "wrong")], &[q_eq("key", "correct")], Request::parse("/?key=correct"));
}
#[test]
fn invalid_query_exists() {
    all_invalid(&[q_ex("missing")], &[q_miss("missing")], Request::parse("/?other=value"));
}
#[test]
fn invalid_query_miss() {
    all_invalid(&[q_miss("present")], &[q_ex("present")], Request::parse("/?present=value"));
}
#[test]
fn invalid_header_eq() {
    all_invalid(
        &[h_eq("Content-Type", "wrong")],
        &[h_eq("Content-Type", "correct")],
        Request::default().with_header("Content-Type", "correct"),
    );
}
#[test]
fn invalid_header_exists() {
    all_invalid(&[h_ex("missing")], &[h_miss("missing")], Request::default());
}
#[test]
fn invalid_header_miss() {
    all_invalid(&[h_miss("present")], &[h_ex("present")], Request::default().with_header("present", "value"));
}
#[test]
fn invalid_fragment_eq() {
    all_invalid(&[f_eq("wrong")], &[f_eq("correct")], Request::parse("/path#correct"));
}
#[test]
fn invalid_fragment_miss() {
    all_invalid(&[Matcher::FragmentMiss], &[f_eq("present")], Request::parse("/path#present"));
}
#[test]
fn invalid_body_eq() {
    all_invalid(&[b_eq("wrong body")], &[b_eq("correct body")], Request::default().with_body("correct body"));
}
#[test]
fn invalid_body_miss() {
    all_invalid(&[Matcher::BodyMiss], &[b_eq("present")], Request::default().with_body("present"));
}
#[test]
fn invalid_multiple() {
    all_invalid(
        &[method("POST"), path("/wrong"), q_eq("key", "bad")],
        &[method("GET"), path("/correct"), q_eq("key", "good")],
        Request::parse("/correct?key=good").with_method("GET"),
    );
}
#[test]
fn invalid_mixed_one_failing() {
    all_invalid(
        &[method("GET"), path("/correct"), q_eq("key", "wrong")],
        &[q_eq("key", "right")],
        Request::parse("/correct?key=right").with_method("GET"),
    );
}
#[test]
fn invalid_mixed_all_failing() {
    all_invalid(
        &[method("POST"), path("/api"), q_ex("token")],
        &[method("GET"), path("/"), q_miss("token")],
        Request::default(),
    );
}

#[test]
fn reports_are_met_again() {
    let r = Request::parse("/a?k=v&flag#frag").with_header("h", "x").with_body("b");
    let all = vec![
        method("put"), path("/b"), q_eq("k", "w"), q_eq("flag", "w"), q_eq("none", "w"),
        q_ex("none"), q_miss("k"), f_eq("other"), Matcher::FragmentMiss, h_eq("h", "y"),
        h_eq("none", "y"), h_ex("none"), h_miss("h"), b_eq("c"), Matcher::BodyMiss,
    ];
    for m in all {
        let report = m.validate(&r).expect("each expectation above fails");
        assert_eq!(report.validate(&r), None);
    }
}

#[test]
fn verdict_agrees_with_reports() {
    let r = Request::parse("/a?k=v");
    let passing = Matchers::new(vec![path("/a"), q_eq("k", "v")]);
    let failing = Matchers::new(vec![path("/a"), q_eq("k", "w")]);
    assert_eq!(passing.is_matched(&r), passing.validate(&r).is_none());
    assert_eq!(failing.is_matched(&r), failing.validate(&r).is_none());
    assert!(!failing.is_matched(&r));
}

#[test]
fn reports_keep_the_order_of_adding() {
    let mut ms = Matchers::new(Vec::new());
    ms.add(method("GET"));
    ms.add(Matcher::BodyMiss);
    ms.add(path("/correct"));
    let r = Request::parse("/wrong").with_method("POST");
    assert!(!ms.is_matched(&r));
    assert_eq!(ms.validate(&r), Some(vec![method("POST"), path("/wrong")]));
}

#[test]
fn add_appends() {
    let mut ms = Matchers::new(vec![method("GET")]);
    ms.add(path("/x"));
    assert_eq!(ms.inner, vec![method("GET"), path("/x")]);
}

#[test]
fn flag_meets_exists_but_not_eq() {
    let r = Request::parse("/?flag");
    assert_eq!(q_ex("flag").validate(&r), None);
    assert_eq!(q_eq("flag", "x").validate(&r), Some(q_ex("flag")));
}

#[test]
fn method_is_compared_without_case() {
    let r = Request::default().with_method("POST");
    assert_eq!(method("post").validate(&r), None);
    assert_eq!(method("Get").validate(&Request::default()), None);
}

#[test]
fn method_report_keeps_actual_case() {
    let r = Request::default().with_method("patch");
    assert_eq!(method("PUT").validate(&r), Some(method("patch")));
}

#[test]
fn path_is_case_sensitive() {
    let r = Request::default().with_path("/path");
    assert_eq!(path("/Path").validate(&r), Some(path("/path")));
}

#[test]
fn header_keys_are_case_sensitive() {
    let r = Request::default().with_header("Content-Type", "a");
    assert_eq!(h_ex("content-type").validate(&r), Some(h_miss("content-type")));
}

#[test]
fn query_miss_on_present_key_scenario() {
    assert_eq!(q_miss("key").validate(&Request::parse("/?key=value")), Some(q_ex("key")));
}

#[test]
fn fragment_miss_scenarios() {
    assert_eq!(Matcher::FragmentMiss.validate(&Request::parse("/path")), None);
    assert_eq!(
        Matcher::FragmentMiss.validate(&Request::parse("/path#anchor")),
        Some(f_eq("anchor"))
    );
}

#[test]
fn check_method_on_upper_cased_texts() {
    let post = String::from("post");
    assert_eq!(Matcher::check_method(&post, &"POST".to_string(), &"POST".to_string()), None);
    assert_eq!(
        Matcher::check_method(&post, &"POST".to_string(), &"GET".to_string()),
        Some(method("post"))
    );
}
