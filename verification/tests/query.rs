use omni_proxy::query::{parse, EvalContext};

#[test]
fn test_expr_eval() {
    let expr = parse(r#"req.method == "POST" && res.status >= 400"#).expect("parse");
    let ctx = EvalContext {
        req_method: Some("POST".into()),
        res_status: Some(500),
        ..EvalContext::default()
    };
    assert!(expr.eval(&ctx));
}

#[test]
fn test_host_contains() {
    let expr = parse(r#"req.host ~= "example.com""#).expect("parse");
    let ctx = EvalContext {
        req_host: Some("api.example.com".into()),
        ..EvalContext::default()
    };
    assert!(expr.eval(&ctx));
}
