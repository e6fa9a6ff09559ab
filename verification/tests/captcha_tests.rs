use limitless::captcha::{
    captcha_region, captcha_retry_outcome, ocr_start, ocr_step, solver_reply_accepted,
    two_attempts_error, OcrAction, OcrEvent,
};

#[test]
fn region_gets_a_margin() {
    assert_eq!(captcha_region(" 100,50,120,40 "), Some((98, 48, 124, 44)));
    assert_eq!(captcha_region("1,0,10,10"), Some((0, 0, 14, 14)));
    assert_eq!(captcha_region("-5,3,1,1"), Some((0, 1, 5, 5)));
}

#[test]
fn region_refuses_bad_text() {
    assert_eq!(captcha_region(""), None);
    assert_eq!(captcha_region("1,2,3"), None);
    assert_eq!(captcha_region("1,2,3,4,5"), None);
    assert_eq!(captcha_region("1,2,x,4"), None);
    assert_eq!(captcha_region("1,2,2147483647,4"), None);
}

#[test]
fn solver_answers() {
    assert!(solver_reply_accepted("AB12"));
    assert!(solver_reply_accepted(" ABCD1234\n"));
    assert!(!solver_reply_accepted("ABC"));
    assert!(!solver_reply_accepted("ABCDEFGHI"));
    assert!(!solver_reply_accepted("ERROR1"));
    assert!(!solver_reply_accepted("   "));
    assert!(!solver_reply_accepted("çççç1"));
}

#[test]
fn retry_outcomes() {
    assert_eq!(captcha_retry_outcome(" X7K2 \n").unwrap(), "X7K2");
    assert_eq!(captcha_retry_outcome("FAIL").unwrap_err(), "Captcha çözülemedi (sunucu FAIL döndü)");
    assert_eq!(captcha_retry_outcome("  ").unwrap_err(), "Captcha çözülemedi (sunucu FAIL döndü)");
    assert_eq!(
        two_attempts_error("a", "b"),
        "2 deneme de başarısız. 1. hata: a | 2. hata: b"
    );
}

#[test]
fn login_thread_decisions() {
    let s = ocr_start();
    let (s1, a) = ocr_step(s, OcrEvent::Coordinates("10,10,50,20".into()));
    assert!(matches!(a, OcrAction::Capture(8, 8, 54, 24)));
    assert_eq!((s1.attempt, s1.submitted), (0, 0));
    let (s2, a) = ocr_step(s1, OcrEvent::Reply(" K9Z1 ".into()));
    assert!(matches!(a, OcrAction::Submit(ref t) if t == "K9Z1"));
    let (s3, a) = ocr_step(s2, OcrEvent::Submitted);
    assert!(matches!(a, OcrAction::NextAttempt));
    assert_eq!((s3.attempt, s3.submitted), (1, 1));
    let (s4, a) = ocr_step(s3, OcrEvent::Reply("ERROR".into()));
    assert!(matches!(a, OcrAction::NextAttempt));
    assert_eq!(s4.attempt, 2);
    let (s5, a) = ocr_step(s4, OcrEvent::Coordinates(String::new()));
    assert!(matches!(a, OcrAction::NextAttempt));
    assert_eq!(s5.attempt, 3);
}

#[test]
fn login_thread_gives_up() {
    let mut s = ocr_start();
    let mut steps = 0;
    loop {
        let (n, a) = ocr_step(s, OcrEvent::PageUnavailable);
        steps += 1;
        if matches!(a, OcrAction::Stop) {
            break;
        }
        s = n;
    }
    assert_eq!(steps, 30);
}
