use handlebars::{
    Context as TemplateData, Handlebars, Helper, HelperResult, Output, RenderContext,
    RenderErrorReason,
};
use restcli::generate::{count_range, random_int, random_paragraphs, random_words};
use restcli::{parse_http_file, parse_param, Context, KeyValue, Method, RequestError, Version};

fn random_int_helper(
    h: &Helper,
    _: &Handlebars,
    _: &TemplateData,
    _: &mut RenderContext,
    out: &mut dyn Output,
) -> HelperResult {
    let min = h.hash_get("min").and_then(|v| v.value().as_i64()).unwrap_or(0) as i32;
    let max = h.hash_get("max").and_then(|v| v.value().as_i64()).unwrap_or(1000) as i32;
    let n = random_int(min, max).map_err(|_| RenderErrorReason::Other("bad range".to_string()))?;
    out.write(&n.to_string())?;
    Ok(())
}

fn registry() -> Handlebars<'static> {
    let mut registry = Handlebars::new();
    registry.register_escape_fn(handlebars::no_escape);
    registry.set_strict_mode(true);
    registry.register_helper("$randomInt", Box::new(random_int_helper));
    registry
}

fn context(params: Vec<KeyValue>) -> Context<'static> {
    Context::from_args(params, registry())
}

fn lines(text: &str) -> Vec<String> {
    text.lines().map(|l| l.to_string()).collect()
}

#[test]
fn first_variable_definition_wins() {
    let mut ctx = context(vec![]);
    let req = parse_http_file(&mut ctx, &lines("@x=1\n@x=2\nGET https://example.com/{{x}}")).unwrap();
    assert_eq!(req.url.as_str(), "https://example.com/1");
    assert_eq!(req.url_text, "https://example.com/1");
    assert_eq!(ctx.render("{{x}}").unwrap(), "1");
    assert!(ctx.contains("x"));
}

#[test]
fn seeded_parameters_win_over_definitions() {
    let mut ctx = context(vec![KeyValue("x".to_string(), "seed".to_string())]);
    let req = parse_http_file(&mut ctx, &lines("@x=file\nGET https://example.com/{{x}}")).unwrap();
    assert_eq!(req.url.as_str(), "https://example.com/seed");
}

#[test]
fn later_seeded_parameter_replaces_earlier() {
    let ctx = context(vec![
        KeyValue("k".to_string(), "a".to_string()),
        KeyValue("k".to_string(), "b".to_string()),
    ]);
    assert_eq!(ctx.render("{{k}}").unwrap(), "b");
}

#[test]
fn unbound_name_is_a_template_error() {
    let ctx = context(vec![]);
    assert!(matches!(ctx.render("{{unboundName}}"), Err(RequestError::Template(_, _))));
}

#[test]
fn text_without_placeholders_renders_unchanged() {
    let ctx = context(vec![]);
    assert_eq!(ctx.render("literal text").unwrap(), "literal text");
}

#[test]
fn variable_binding_is_visible() {
    let mut ctx = context(vec![]);
    assert!(!ctx.contains("a"));
    ctx.variable("a", "1");
    assert!(ctx.contains("a"));
    assert_eq!(ctx.render("v={{a}}").unwrap(), "v=1");
}

#[test]
fn repeated_header_keeps_last_value() {
    let mut ctx = context(vec![]);
    let text = "GET https://example.com/\nHeader-Name: v1\nheader-name: v2\n";
    let req = parse_http_file(&mut ctx, &lines(text)).unwrap();
    assert_eq!(req.headers, vec![("header-name".to_string(), "v2".to_string())]);
}

#[test]
fn version_defaults_to_http11() {
    let mut ctx = context(vec![]);
    let req = parse_http_file(&mut ctx, &lines("GET https://example.com/")).unwrap();
    assert_eq!(req.version, Version::Http11);
}

#[test]
fn explicit_versions_are_read() {
    let mut ctx = context(vec![]);
    let req = parse_http_file(&mut ctx, &lines("POST https://example.com/ HTTP/2.0")).unwrap();
    assert_eq!(req.method, Method::Post);
    assert_eq!(req.version, Version::Http2);
}

#[test]
fn count_range_widens_to_count() {
    assert_eq!(count_range(1, 0, 0), Some((1, 2)));
    assert_eq!(count_range(1, 1, 3), Some((1, 4)));
    assert_eq!(count_range(2, 1, 3), Some((2, 4)));
    assert_eq!(count_range(5, 1, 3), Some((5, 6)));
    assert_eq!(count_range(0, 0, usize::MAX), None);
}

#[test]
fn end_to_end_request() {
    let mut ctx = context(vec![]);
    let text = "@token=abc123\nGET https://example.com/items?auth={{token}} HTTP/1.1\nAccept: application/json\n\n";
    let req = parse_http_file(&mut ctx, &lines(text)).unwrap();
    assert_eq!(req.method, Method::Get);
    assert_eq!(req.url.as_str(), "https://example.com/items?auth=abc123");
    assert_eq!(req.url_text, "https://example.com/items?auth=abc123");
    assert_eq!(req.version, Version::Http11);
    assert_eq!(req.headers, vec![("accept".to_string(), "application/json".to_string())]);
    assert_eq!(req.body, None);
}

#[test]
fn body_with_degenerate_random_int() {
    let mut ctx = context(vec![]);
    let text = "POST https://example.com/\nContent-Type: text/plain\n\n{{$randomInt min=1 max=1}}\n";
    let req = parse_http_file(&mut ctx, &lines(text)).unwrap();
    assert_eq!(req.body, Some("1".to_string()));
}

#[test]
fn body_keeps_comment_lines_and_stops_at_blank() {
    let mut ctx = context(vec![]);
    let text = "# leading comment\nPOST https://example.com/\n# header comment\n\nline one\n# kept\n\nignored\n";
    let req = parse_http_file(&mut ctx, &lines(text)).unwrap();
    assert!(req.headers.is_empty());
    assert_eq!(req.body, Some("line one\n# kept".to_string()));
}

#[test]
fn unknown_method_is_a_parse_error() {
    let mut ctx = context(vec![]);
    assert!(matches!(
        parse_http_file(&mut ctx, &lines("FOO /x HTTP/1.1")),
        Err(RequestError::Parse(_))
    ));
}

#[test]
fn missing_request_line_is_a_parse_error() {
    let mut ctx = context(vec![]);
    assert!(matches!(
        parse_http_file(&mut ctx, &lines("# only a comment\n\n@a=1\n")),
        Err(RequestError::Parse(_))
    ));
}

#[test]
fn bad_url_is_a_parse_error() {
    let mut ctx = context(vec![]);
    assert!(matches!(
        parse_http_file(&mut ctx, &lines("GET not-a-url")),
        Err(RequestError::Parse(_))
    ));
}

#[test]
fn bad_version_is_a_parse_error() {
    let mut ctx = context(vec![]);
    assert!(matches!(
        parse_http_file(&mut ctx, &lines("GET https://example.com/ HTTP/4.0")),
        Err(RequestError::Parse(_))
    ));
}

#[test]
fn header_without_colon_is_a_parse_error() {
    let mut ctx = context(vec![]);
    assert!(matches!(
        parse_http_file(&mut ctx, &lines("GET https://example.com/\nAccept text/plain")),
        Err(RequestError::Parse(_))
    ));
}

#[test]
fn header_with_control_character_is_a_parse_error() {
    let mut ctx = context(vec![]);
    assert!(matches!(
        parse_http_file(&mut ctx, &lines("GET https://example.com/\nX-A: a\u{7f}b")),
        Err(RequestError::Parse(_))
    ));
}

#[test]
fn malformed_definition_is_a_parse_error() {
    let mut ctx = context(vec![]);
    assert!(matches!(
        parse_http_file(&mut ctx, &lines("@a=1=2\nGET https://example.com/")),
        Err(RequestError::Parse(_))
    ));
}

#[test]
fn unbound_name_in_url_is_a_template_error() {
    let mut ctx = context(vec![]);
    assert!(matches!(
        parse_http_file(&mut ctx, &lines("GET https://example.com/{{nope}}")),
        Err(RequestError::Template(_, _))
    ));
}

#[test]
fn definition_name_and_value_are_trimmed() {
    let mut ctx = context(vec![]);
    let req = parse_http_file(&mut ctx, &lines("@@name = value \nGET https://example.com/{{name}}")).unwrap();
    assert_eq!(req.url.as_str(), "https://example.com/value");
}

#[test]
fn param_splits_on_single_equals() {
    let kv = parse_param("key=value").unwrap();
    assert_eq!(kv.0, "key");
    assert_eq!(kv.1, "value");
    let kv = parse_param("=x").unwrap();
    assert_eq!(kv.0, "");
    assert_eq!(kv.1, "x");
    assert!(matches!(parse_param("novalue"), Err(RequestError::Parse(_))));
    assert!(matches!(parse_param("a=b=c"), Err(RequestError::Parse(_))));
}

#[test]
fn random_int_respects_bounds() {
    assert_eq!(random_int(7, 7).unwrap(), 7);
    let n = random_int(-3, 3).unwrap();
    assert!((-3..=3).contains(&n));
    assert!(matches!(random_int(3, 1), Err(RequestError::Template(_, _))));
}

#[test]
fn random_words_draws_requested_count() {
    let words = random_words(3, 0, 0, "-").unwrap();
    assert_eq!(words.split('-').count(), 3);
    assert!(matches!(random_words(1, 4, 2, " "), Err(RequestError::Template(_, _))));
}

#[test]
fn random_paragraphs_use_separator_for_breaks() {
    let text = random_paragraphs(2, 0, 0, "|").unwrap();
    assert!(!text.contains('\n'));
    assert!(text.contains('|'));
}

#[test]
fn body_lines_are_verbatim_and_do_not_bind() {
    let mut ctx = context(vec![KeyValue("y".to_string(), "Y".to_string())]);
    let text = "POST https://example.com/\n\n# not a comment\n@x=2\n  line {{y}}\n\nafter\n";
    let req = parse_http_file(&mut ctx, &lines(text)).unwrap();
    assert_eq!(req.body, Some("# not a comment\n@x=2\n  line Y".to_string()));
    assert!(!ctx.contains("x"));
}

#[test]
fn second_request_line_is_a_parse_error() {
    let mut ctx = context(vec![]);
    assert!(matches!(
        parse_http_file(&mut ctx, &lines("GET https://example.com/\nGET https://other.example/")),
        Err(RequestError::Parse(_))
    ));
}

#[test]
fn seeded_binding_survives_the_parse() {
    let mut ctx = context(vec![KeyValue("x".to_string(), "cli".to_string())]);
    parse_http_file(&mut ctx, &lines("@x=file\nGET https://example.com/{{x}}")).unwrap();
    assert_eq!(ctx.render("{{x}}").unwrap(), "cli");
}

#[test]
fn templated_header_value_keeps_its_name() {
    let mut ctx = context(vec![KeyValue("tok".to_string(), "abc".to_string())]);
    let text = "GET https://example.com/\nAuthorization: {{tok}}\nX-Id: 1\n";
    let req = parse_http_file(&mut ctx, &lines(text)).unwrap();
    assert_eq!(
        req.headers,
        vec![("authorization".to_string(), "abc".to_string()), ("x-id".to_string(), "1".to_string())]
    );
}
