//! Decisions around the login CAPTCHA: the screen region to capture from
//! the coordinates the login page reports, which answers of the local
//! solver are used, and the messages of a failed retry.
use crate::text::{
    char_position, chars_of, index_of, lemma_index_of_facts, parse_i32, parsed_i32, same_chars,
    slice_chars, starts_with, trim_text, trimmed, text_concat, has_prefix,
};
use crate::crypto::utf8_len;
use vstd::prelude::*;

verus! {

/// `s` cut at every `c`, as `str::split` with a character does: always at
/// least one part.
pub open spec fn split_at_char(s: Seq<char>, c: char) -> Seq<Seq<char>>
    decreases s.len(),
{
    proof {
        lemma_index_of_facts(s, c);
    }
    match index_of(s, c) {
        None => seq![s],
        Some(k) => seq![s.take(k)] + split_at_char(s.skip(k + 1), c),
    }
}

/// The parts of `s` between occurrences of `c`.
pub fn split_chars(s: &[char], c: char) -> (res: Vec<Vec<char>>)
    ensures
        res@.map_values(|v: Vec<char>| v@) == split_at_char(s@, c),
{
    let ghost views: Seq<Seq<char>> = seq![];
    let mut res: Vec<Vec<char>> = Vec::new();
    let mut rest = slice_chars(s, 0, s.len());
    assert(rest@ =~= s@);
    loop
        invariant
            res@.len() == views.len(),
            forall|k: int| 0 <= k < views.len() ==> (#[trigger] res@[k])@ == views[k],
            split_at_char(s@, c) == views + split_at_char(rest@, c),
        decreases rest.len(),
    {
        proof {
            lemma_index_of_facts(rest@, c);
        }
        match char_position(rest.as_slice(), c) {
            Some(k) => {
                let part = slice_chars(rest.as_slice(), 0, k);
                let next = slice_chars(rest.as_slice(), k + 1, rest.len());
                proof {
                    assert(part@ =~= rest@.take(k as int));
                    assert(next@ =~= rest@.skip(k + 1));
                    views = views.push(part@);
                    assert(views.drop_last() + (seq![part@] + split_at_char(next@, c)) =~= views
                        + split_at_char(next@, c));
                }
                res.push(part);
                rest = next;
            },
            None => {
                let ghost last = rest@;
                res.push(rest);
                proof {
                    views = views.push(last);
                }
                assert(res@.map_values(|v: Vec<char>| v@) =~= views);
                return res;
            },
        }
    }
}

/// The region captured for a CAPTCHA whose bounds the page reported as
/// `x,y,w,h`: two pixels of margin on every side, the corner kept inside
/// the screen's positive quadrant.  `None` where the text, trimmed, is not
/// four comma-separated `i32`s, or the widened size leaves the `i32` range.
pub open spec fn region_of(coords: Seq<char>) -> Option<(i32, i32, i32, i32)> {
    let parts = split_at_char(trimmed(coords), ',');
    if parts.len() != 4 {
        None
    } else {
        match (parsed_i32(parts[0]), parsed_i32(parts[1]), parsed_i32(parts[2]), parsed_i32(
            parts[3],
        )) {
            (Some(x), Some(y), Some(w), Some(h)) => if w + 4 <= i32::MAX && h + 4 <= i32::MAX {
                Some(
                    (
                        if x < 2 {
                            0i32
                        } else {
                            (x - 2) as i32
                        },
                        if y < 2 {
                            0i32
                        } else {
                            (y - 2) as i32
                        },
                        (w + 4) as i32,
                        (h + 4) as i32,
                    ),
                )
            } else {
                None
            },
            _ => None,
        }
    }
}

/// The region to capture for the CAPTCHA, from the coordinates the login
/// page reported.
pub fn captcha_region(coords: &str) -> (res: Option<(i32, i32, i32, i32)>)
    ensures
        res == region_of(coords@),
{
    let t = trim_text(coords);
    let c = chars_of(t.as_str());
    let parts = split_chars(c.as_slice(), ',');
    proof {
        assert(parts@.len() == split_at_char(trimmed(coords@), ',').len());
    }
    if parts.len() != 4 {
        return None;
    }
    proof {
        let v = parts@.map_values(|v: Vec<char>| v@);
        assert(v[0] == parts@[0]@);
        assert(v[1] == parts@[1]@);
        assert(v[2] == parts@[2]@);
        assert(v[3] == parts@[3]@);
    }
    let x = parse_i32(parts[0].as_slice());
    let y = parse_i32(parts[1].as_slice());
    let w = parse_i32(parts[2].as_slice());
    let h = parse_i32(parts[3].as_slice());
    match (x, y, w, h) {
        (Some(x), Some(y), Some(w), Some(h)) => {
            if w > i32::MAX - 4 || h > i32::MAX - 4 {
                return None;
            }
            let cx = if x < 2 {
                0
            } else {
                x - 2
            };
            let cy = if y < 2 {
                0
            } else {
                y - 2
            };
            Some((cx, cy, w + 4, h + 4))
        },
        _ => None,
    }
}

/// The solver's answer is used: trimmed, it is not empty, does not start
/// with `ERROR`, and is 4 to 8 bytes long.
pub open spec fn reply_accepted(reply: Seq<char>) -> bool {
    let t = trimmed(reply);
    &&& t.len() > 0
    &&& !starts_with(t, "ERROR"@)
    &&& 4 <= utf8_len(t) <= 8
}

/// `t` begins with the five characters `E`, `R`, `R`, `O`, `R`.
pub open spec fn begins_error(t: Seq<char>) -> bool {
    t.len() >= 5 && t[0] == 'E' && t[1] == 'R' && t[2] == 'R' && t[3] == 'O' && t[4] == 'R'
}

/// Acceptance spelled out: the trimmed reply is 4 to 8 UTF-8 bytes long and
/// does not begin with `ERROR`; every other reply is refused.
pub open spec fn reply_accepted_by_bytes(reply: Seq<char>) -> bool {
    let t = trimmed(reply);
    4 <= utf8_len(t) <= 8 && !begins_error(t)
}

/// A solver answer is used exactly when, trimmed, it is 4 to 8 UTF-8 bytes
/// long and does not begin with the five characters `ERROR`; so an answer
/// such as `E4X9` or `ERR1` is used, and `ERROR` or `ERRORX` is not.
pub proof fn lemma_reply_acceptance(reply: Seq<char>)
    ensures
        reply_accepted(reply) == reply_accepted_by_bytes(reply),
{
    reveal_strlit("ERROR");
    let t = trimmed(reply);
    if begins_error(t) {
        assert(t.take(5) =~= "ERROR"@);
    }
    if starts_with(t, "ERROR"@) {
        assert(t.take(5)[0] == 'E');
        assert(t.take(5)[1] == 'R');
        assert(t.take(5)[2] == 'R');
        assert(t.take(5)[3] == 'O');
        assert(t.take(5)[4] == 'R');
    }
    if t.len() == 0 {
        assert(utf8_len(t) == 0) by {
            assert(t =~= Seq::<char>::empty());
        }
    }
}

/// Whether the login thread types in what the local solver answered.
pub fn solver_reply_accepted(reply: &str) -> (res: bool)
    ensures
        res == reply_accepted(reply@),
        res == reply_accepted_by_bytes(reply@),
{
    proof {
        lemma_reply_acceptance(reply@);
    }
    let t = trim_text(reply);
    let c = chars_of(t.as_str());
    let n = t.as_str().as_bytes().len();
    !c.is_empty() && !has_prefix(c.as_slice(), chars_of("ERROR").as_slice()) && 4 <= n && n <= 8
}

/// The message of a retry whose CAPTCHA the solver could not read.
pub open spec fn unsolved_message() -> Seq<char> {
    "Captcha çözülemedi (sunucu FAIL döndü)"@
}

/// What a retry does with the solver's answer: the answer, trimmed, to
/// type in; the unsolved message where it is empty or `FAIL`.
pub fn captcha_retry_outcome(reply: &str) -> (res: Result<String, String>)
    ensures
        ({
            let t = trimmed(reply@);
            if t.len() == 0 || t == "FAIL"@ {
                res matches Err(e) && e@ == unsolved_message()
            } else {
                res matches Ok(s) && s@ == t
            }
        }),
{
    let t = trim_text(reply);
    let c = chars_of(t.as_str());
    if c.is_empty() || same_chars(c.as_slice(), chars_of("FAIL").as_slice()) {
        Err("Captcha çözülemedi (sunucu FAIL döndü)".to_owned())
    } else {
        Ok(t)
    }
}

/// The message where both the user's CAPTCHA and the retry failed.
pub fn two_attempts_error(first: &str, second: &str) -> (res: String)
    ensures
        res@ == "2 deneme de başarısız. 1. hata: "@ + first@ + " | 2. hata: "@ + second@,
{
    let a = text_concat("2 deneme de başarısız. 1. hata: ", first);
    let b = text_concat(a.as_str(), " | 2. hata: ");
    text_concat(b.as_str(), second)
}

/// The number of times the login thread looks at the page before it gives
/// up.
pub open spec fn ocr_attempts() -> u32 {
    30
}

/// Where the login thread stands: the attempt it is on and how many
/// answers it has submitted.
#[derive(Debug, Clone, Copy)]
pub struct OcrState {
    pub attempt: u32,
    pub submitted: u32,
}

/// What the login thread learned from the page, the capture and the
/// solver.
#[derive(Debug, Clone)]
pub enum OcrEvent {
    /// The page's document could not be reached this attempt.
    PageUnavailable,
    /// The page reported the CAPTCHA's bounds as this text (empty where it
    /// shows no CAPTCHA).
    Coordinates(String),
    /// The capture of the region failed.
    CaptureFailed,
    /// The solver answered with this text.
    Reply(String),
    /// The solver did not answer.
    NoReply,
    /// The answer was typed in and the form submitted.
    Submitted,
}

/// What the login thread does next.
#[derive(Debug, Clone)]
pub enum OcrAction {
    /// Wait and look at the page again.
    NextAttempt,
    /// Capture this region (x, y, width, height) and hand it to the solver.
    Capture(i32, i32, i32, i32),
    /// Type this answer in and submit the form.
    Submit(String),
    /// Give up: every attempt has been used.
    Stop,
}

impl OcrState {
    pub open spec fn valid(self) -> bool {
        self.attempt < ocr_attempts() && self.submitted <= self.attempt + 1
    }
}

/// The state after an attempt ends: the next attempt, or the same state
/// where that was the last one.
pub open spec fn after_attempt(s: OcrState) -> OcrState {
    if s.attempt + 1 >= ocr_attempts() {
        s
    } else {
        OcrState { attempt: (s.attempt + 1) as u32, submitted: s.submitted }
    }
}

/// The event asks for a capture: the page reported a region.
pub open spec fn captures(e: OcrEvent) -> bool {
    e matches OcrEvent::Coordinates(c) && region_of(c@) is Some
}

/// The event asks for a submission: the solver gave an acceptable answer.
pub open spec fn submits(e: OcrEvent) -> bool {
    e matches OcrEvent::Reply(r) && reply_accepted(r@)
}

/// The login thread's state after an event: unchanged where it captures or
/// submits; otherwise the attempt ends, after counting a submission.
pub open spec fn ocr_next_state(s: OcrState, e: OcrEvent) -> OcrState {
    if captures(e) || submits(e) {
        s
    } else if e is Submitted {
        after_attempt(OcrState { attempt: s.attempt, submitted: (s.submitted + 1) as u32 })
    } else {
        after_attempt(s)
    }
}

/// Every event that neither asks for a capture nor submits an answer (the
/// page unreachable, a failed capture, no answer from the solver, a refused
/// answer or region, a submission done) uses up one attempt; only a capture
/// or a submission leaves the attempt where it is.  So from any state at
/// most 30 such events lead to `Stop`.
pub proof fn lemma_ocr_attempt_used(s: OcrState, e: OcrEvent)
    requires
        s.attempt < ocr_attempts(),
    ensures
        !captures(e) && !submits(e) && s.attempt + 1 < ocr_attempts() ==> ocr_next_state(s, e).attempt
            == s.attempt + 1,
        !captures(e) && !submits(e) && s.attempt + 1 >= ocr_attempts() ==> ocr_next_state(
            s,
            e,
        ).attempt == s.attempt,
        s.valid() && e is Submitted ==> ocr_next_state(s, e).submitted == s.submitted + 1,
        !(e is Submitted) ==> ocr_next_state(s, e).submitted == s.submitted,
        captures(e) || submits(e) ==> ocr_next_state(s, e) == s,
{
}

/// The state after a run of events, one step at a time.
pub open spec fn ocr_run(s: OcrState, events: Seq<OcrEvent>) -> OcrState
    decreases events.len(),
{
    if events.len() == 0 {
        s
    } else {
        ocr_run(ocr_next_state(s, events[0]), events.drop_first())
    }
}

/// A run of events none of which captures or submits moves the attempt
/// counter on by one per event, up to the last attempt (29): the thread
/// cannot keep retrying without using up its attempts, whatever mix of
/// unreachable pages, failed captures, missing or refused answers and
/// submissions it sees.
pub proof fn lemma_ocr_run_uses_attempts(s: OcrState, events: Seq<OcrEvent>)
    requires
        s.attempt < ocr_attempts(),
        forall|i: int| 0 <= i < events.len() ==> !captures(#[trigger] events[i]) && !submits(events[i]),
    ensures
        ocr_run(s, events).attempt == if s.attempt + events.len() < ocr_attempts() {
            s.attempt + events.len()
        } else {
            ocr_attempts() - 1
        },
    decreases events.len(),
{
    if events.len() > 0 {
        lemma_ocr_attempt_used(s, events[0]);
        let rest = events.drop_first();
        assert forall|i: int| 0 <= i < rest.len() implies !captures(#[trigger] rest[i]) && !submits(
            rest[i],
        ) by {
            assert(rest[i] == events[i + 1]);
        }
        lemma_ocr_run_uses_attempts(ocr_next_state(s, events[0]), rest);
    }
}

/// The login thread's first state: the first attempt, nothing submitted.
pub fn ocr_start() -> (res: OcrState)
    ensures
        res.valid(),
        res.attempt == 0 && res.submitted == 0,
{
    OcrState { attempt: 0, submitted: 0 }
}

fn next_attempt(s: OcrState) -> (res: (OcrState, OcrAction))
    requires
        s.attempt < ocr_attempts(),
        s.submitted <= s.attempt + 2,
    ensures
        res.0.valid() || res.1 is Stop,
        res.0 == after_attempt(s),
        res.1 == if s.attempt + 1 >= ocr_attempts() {
            OcrAction::Stop
        } else {
            OcrAction::NextAttempt
        },
{
    if s.attempt + 1 >= 30 {
        (s, OcrAction::Stop)
    } else {
        (OcrState { attempt: s.attempt + 1, submitted: s.submitted }, OcrAction::NextAttempt)
    }
}

/// The login thread's decision on an event: capture the region the page
/// reported, submit an acceptable answer (trimmed), count a submission, and
/// otherwise go on to the next attempt, stopping after the last one.
pub fn ocr_step(s: OcrState, e: OcrEvent) -> (res: (OcrState, OcrAction))
    requires
        s.valid(),
    ensures
        res.0.valid() || res.1 is Stop,
        res.0 == ocr_next_state(s, e),
        e matches OcrEvent::Coordinates(c) ==> (region_of(c@) matches Some((x, y, w, h))
            ==> res.1 == OcrAction::Capture(x, y, w, h)),
        e matches OcrEvent::Reply(r) ==> (reply_accepted(r@) ==> (res.1 matches OcrAction::Submit(
            answer,
        ) && answer@ == trimmed(r@))),
        !captures(e) && !submits(e) ==> res.1 == if s.attempt + 1 >= ocr_attempts() {
            OcrAction::Stop
        } else {
            OcrAction::NextAttempt
        },
        !captures(e) && !submits(e) && s.attempt + 1 < ocr_attempts() ==> res.0.attempt
            == s.attempt + 1,
        e is Submitted ==> res.0.submitted == s.submitted + 1,
        !(e is Submitted) ==> res.0.submitted == s.submitted,
        captures(e) || submits(e) ==> res.0 == s,
{
    proof {
        lemma_ocr_attempt_used(s, e);
    }
    match e {
        OcrEvent::Coordinates(c) => match captcha_region(c.as_str()) {
            Some((x, y, w, h)) => (s, OcrAction::Capture(x, y, w, h)),
            None => next_attempt(s),
        },
        OcrEvent::Reply(r) => {
            if solver_reply_accepted(r.as_str()) {
                (s, OcrAction::Submit(trim_text(r.as_str())))
            } else {
                next_attempt(s)
            }
        },
        OcrEvent::Submitted => next_attempt(OcrState { attempt: s.attempt, submitted: s.submitted + 1 }),
        OcrEvent::PageUnavailable => next_attempt(s),
        OcrEvent::CaptureFailed => next_attempt(s),
        OcrEvent::NoReply => next_attempt(s),
    }
}

} // verus!
