use limitless::login::{captcha_response, cookie_header, cookie_pair, hwid_response, login_outcome, login_url};

#[test]
fn login_page_state_is_read() {
    let html = r#"<input type="hidden" name="__VIEWSTATE" id="__VIEWSTATE" value="dDwtMTA4" />
<input type="hidden" id="__VIEWSTATEGENERATOR" value="C2EE9ABB" />"#;
    let r = captcha_response(html, vec!["ASP.NET_SessionId=abc".to_string()], b"hello");
    assert_eq!(r.viewstate, "dDwtMTA4");
    assert_eq!(r.eventvalidation, "");
    assert_eq!(r.viewstategenerator, "C2EE9ABB");
    assert_eq!(r.image_base64, "aGVsbG8=");
    assert_eq!(r.cookies, vec!["ASP.NET_SessionId=abc".to_string()]);
}

#[test]
fn cookies() {
    assert_eq!(cookie_pair("ASP.NET_SessionId=abc; path=/; HttpOnly"), "ASP.NET_SessionId=abc");
    assert_eq!(cookie_pair("a=b"), "a=b");
    assert_eq!(cookie_pair(";x"), "");
    assert_eq!(cookie_header(&vec!["a=1".to_string(), "b=2".to_string()]), "a=1; b=2");
    assert_eq!(cookie_header(&vec![]), "");
}

#[test]
fn login_replies() {
    assert_eq!(login_outcome("x?user=a&pass=b").unwrap(), "x?user=a&pass=b");
    assert_eq!(login_outcome("hata").unwrap_err(), "Giriş başarısız: hata");
    let long = "a".repeat(150);
    assert_eq!(login_outcome(&long).unwrap_err(), format!("Giriş başarısız: {}", "a".repeat(100)));
}

#[test]
fn hwid_answer() {
    let ok = hwid_response("ABC-1\r\n");
    assert!(ok.success);
    assert_eq!(ok.data.as_deref(), Some("ABC-1"));
    let bad = hwid_response("");
    assert!(!bad.success);
    assert_eq!(bad.error.as_deref(), Some("HWID okunamadı"));
}
