//! The game's launch preferences file (`base/pref_launch.prefs`): which
//! window size a launch asks for, and how the file's lines are rewritten so
//! that the game starts windowed at that size.
use crate::external::{lowercased, to_lowercase};
use crate::text::{
    chars_of, decimal_of, ends_with, index_of, int_decimal, join, join_chars,
    lemma_index_of_facts, nat_decimal, parse_i32, parsed_i32, same_chars, slice_chars,
    starts_with, strip_all_prefix, strip_prefixes, has_prefix, char_position, concat_chars,
};
use vstd::prelude::*;

verus! {

// ---------------------------------------------------------------------------
// Window size
// ---------------------------------------------------------------------------

/// `s` split at its only occurrence of `c`; `None` where `c` occurs not
/// exactly once.
pub open spec fn split_once_exact(s: Seq<char>, c: char) -> Option<(Seq<char>, Seq<char>)> {
    match index_of(s, c) {
        Some(k) => if index_of(s.skip(k + 1), c) is None {
            Some((s.take(k), s.skip(k + 1)))
        } else {
            None
        },
        None => None,
    }
}

/// The size asked for by `custom_<width>x<height>`, with `800` and `600`
/// for a number that does not parse, and 800 by 600 where the text is not
/// two parts around one `x`.
pub open spec fn custom_dimensions(rest: Seq<char>) -> (i32, i32) {
    match split_once_exact(rest, 'x') {
        Some((a, b)) => (
            match parsed_i32(a) {
                Some(w) => w,
                None => 800i32,
            },
            match parsed_i32(b) {
                Some(h) => h,
                None => 600i32,
            },
        ),
        None => (800i32, 600i32),
    }
}

/// The window size, in pixels, that a size name selects: the named sizes,
/// `custom_<width>x<height>`, and 800 by 600 for anything else.
pub open spec fn window_dimensions(size: Seq<char>) -> (i32, i32) {
    if size == "small"@ {
        (800i32, 600i32)
    } else if size == "medium"@ {
        (1024i32, 768i32)
    } else if size == "large"@ {
        (1920i32, 1080i32)
    } else if size == "2k_4"@ {
        (1280i32, 670i32)
    } else if size == "2k_2"@ {
        (1280i32, 1370i32)
    } else if size == "2k_full"@ {
        (2560i32, 1440i32)
    } else if starts_with(size, "custom_"@) {
        custom_dimensions(strip_prefixes(size, "custom_"@))
    } else {
        (800i32, 600i32)
    }
}

/// Whether the preferences live beside the game path (it names a file, or
/// ends in `.exe` in any case) rather than in it.
pub open spec fn prefs_beside(game_path: Seq<char>, is_file: bool) -> bool {
    is_file || ends_with(lowercased(game_path), ".exe"@)
}

// ---------------------------------------------------------------------------
// Lines
// ---------------------------------------------------------------------------

/// `t` without one trailing carriage return.
pub open spec fn strip_cr(t: Seq<char>) -> Seq<char> {
    if t.len() > 0 && t.last() == '\r' {
        t.drop_last()
    } else {
        t
    }
}

/// The lines of `s` as `str::lines` yields them: split after each line
/// feed, the line feed and one carriage return before it removed, no empty
/// line after a final line feed.
pub open spec fn lines_of(s: Seq<char>) -> Seq<Seq<char>>
    decreases s.len(),
{
    if s.len() == 0 {
        seq![]
    } else {
        proof {
            lemma_index_of_facts(s, '\n');
        }
        match index_of(s, '\n') {
            None => seq![s],
            Some(k) => seq![strip_cr(s.take(k))] + lines_of(s.skip(k + 1)),
        }
    }
}

pub open spec fn no_newline(s: Seq<char>) -> bool {
    forall|i: int| 0 <= i < s.len() ==> s[i] != '\n'
}

pub open spec fn crlf() -> Seq<char> {
    seq!['\r', '\n']
}

// ---------------------------------------------------------------------------
// Rewriting
// ---------------------------------------------------------------------------

pub open spec fn width_key() -> Seq<char> {
    "ScreenWidth "@
}

pub open spec fn height_key() -> Seq<char> {
    "ScreenHeight "@
}

pub open spec fn fullscreen_key() -> Seq<char> {
    "Fullscreen "@
}

pub open spec fn resolution_key() -> Seq<char> {
    "ScreenResolution_PREF "@
}

pub open spec fn width_line(w: int) -> Seq<char> {
    width_key() + int_decimal(w)
}

pub open spec fn height_line(h: int) -> Seq<char> {
    height_key() + int_decimal(h)
}

pub open spec fn fullscreen_off() -> Seq<char> {
    "Fullscreen 0"@
}

pub open spec fn resolution_off() -> Seq<char> {
    "ScreenResolution_PREF 0"@
}

/// One line of the preferences after rewriting for a `w` by `h` window.
pub open spec fn rewrite_line(line: Seq<char>, w: int, h: int) -> Seq<char> {
    if starts_with(line, width_key()) {
        width_line(w)
    } else if starts_with(line, height_key()) {
        height_line(h)
    } else if starts_with(line, fullscreen_key()) {
        fullscreen_off()
    } else if starts_with(line, resolution_key()) {
        resolution_off()
    } else {
        line
    }
}

/// Some line begins with `key`.
pub open spec fn any_line_starts(lines: Seq<Seq<char>>, key: Seq<char>) -> bool {
    exists|i: int| 0 <= i < lines.len() && starts_with(#[trigger] lines[i], key)
}

/// The lines after rewriting: each line rewritten, then the width, height
/// and full-screen settings appended where no line held them.
pub open spec fn rewritten_lines(lines: Seq<Seq<char>>, w: int, h: int) -> Seq<Seq<char>> {
    let base = lines.map_values(|l: Seq<char>| rewrite_line(l, w, h));
    let a = if any_line_starts(lines, width_key()) {
        base
    } else {
        base.push(width_line(w))
    };
    let b = if any_line_starts(lines, height_key()) {
        a
    } else {
        a.push(height_line(h))
    };
    if any_line_starts(lines, fullscreen_key()) {
        b
    } else {
        b.push(fullscreen_off())
    }
}

/// The preferences text after rewriting for a `w` by `h` window: the
/// rewritten lines joined by CR LF.
pub open spec fn rewritten_prefs(content: Seq<char>, w: int, h: int) -> Seq<char> {
    join(rewritten_lines(lines_of(content), w, h), crlf())
}

// ---------------------------------------------------------------------------
// Lemmas
// ---------------------------------------------------------------------------

proof fn lemma_keys_distinct(line: Seq<char>)
    ensures
        !(starts_with(line, width_key()) && starts_with(line, height_key())),
        !(starts_with(line, width_key()) && starts_with(line, fullscreen_key())),
        !(starts_with(line, height_key()) && starts_with(line, fullscreen_key())),
        !(starts_with(line, resolution_key()) && starts_with(line, width_key())),
        !(starts_with(line, resolution_key()) && starts_with(line, height_key())),
        !(starts_with(line, resolution_key()) && starts_with(line, fullscreen_key())),
{
    reveal_strlit("ScreenWidth ");
    reveal_strlit("ScreenHeight ");
    reveal_strlit("Fullscreen ");
    reveal_strlit("ScreenResolution_PREF ");
    if starts_with(line, width_key()) && starts_with(line, height_key()) {
        assert(line.take(12)[6] == width_key()[6]);
        assert(line.take(13)[6] == height_key()[6]);
    }
    if starts_with(line, width_key()) && starts_with(line, fullscreen_key()) {
        assert(line.take(12)[0] == width_key()[0]);
        assert(line.take(11)[0] == fullscreen_key()[0]);
    }
    if starts_with(line, height_key()) && starts_with(line, fullscreen_key()) {
        assert(line.take(13)[0] == height_key()[0]);
        assert(line.take(11)[0] == fullscreen_key()[0]);
    }
    if starts_with(line, resolution_key()) && starts_with(line, width_key()) {
        assert(line.take(22)[6] == resolution_key()[6]);
        assert(line.take(12)[6] == width_key()[6]);
    }
    if starts_with(line, resolution_key()) && starts_with(line, height_key()) {
        assert(line.take(22)[6] == resolution_key()[6]);
        assert(line.take(13)[6] == height_key()[6]);
    }
    if starts_with(line, resolution_key()) && starts_with(line, fullscreen_key()) {
        assert(line.take(22)[0] == resolution_key()[0]);
        assert(line.take(11)[0] == fullscreen_key()[0]);
    }
}

proof fn lemma_starts_with_concat(p: Seq<char>, q: Seq<char>)
    ensures
        starts_with(p + q, p),
{
    assert((p + q).take(p.len() as int) =~= p);
}

proof fn lemma_decimal_no_newline(i: int)
    ensures
        no_newline(int_decimal(i)),
        int_decimal(i).len() > 0,
{
    let n: nat = if i < 0 {
        (-i) as nat
    } else {
        i as nat
    };
    crate::text::lemma_nat_decimal_digits(n);
    if i < 0 {
        assert forall|j: int| 0 <= j < int_decimal(i).len() implies int_decimal(i)[j] != '\n' by {
            if j > 0 {
                assert(int_decimal(i)[j] == nat_decimal(n)[j - 1]);
            }
        }
    }
}

/// Each line that `rewrite_line` produces is left as it is by a second
/// rewrite, and contains no line feed where its input contained none.
proof fn lemma_rewrite_line_fixed(line: Seq<char>, w: int, h: int)
    ensures
        rewrite_line(rewrite_line(line, w, h), w, h) == rewrite_line(line, w, h),
        no_newline(line) ==> no_newline(rewrite_line(line, w, h)),
        line.len() > 0 ==> rewrite_line(line, w, h).len() > 0,
{
    reveal_strlit("ScreenWidth ");
    reveal_strlit("ScreenHeight ");
    reveal_strlit("Fullscreen ");
    reveal_strlit("ScreenResolution_PREF ");
    reveal_strlit("Fullscreen 0");
    reveal_strlit("ScreenResolution_PREF 0");
    lemma_decimal_no_newline(w);
    lemma_decimal_no_newline(h);
    let r = rewrite_line(line, w, h);
    lemma_keys_distinct(r);
    if starts_with(line, width_key()) {
        lemma_starts_with_concat(width_key(), int_decimal(w));
    } else if starts_with(line, height_key()) {
        lemma_starts_with_concat(height_key(), int_decimal(h));
    } else if starts_with(line, fullscreen_key()) {
        assert(fullscreen_off().take(11) =~= fullscreen_key());
    } else if starts_with(line, resolution_key()) {
        assert(resolution_off().take(22) =~= resolution_key());
    }
    if no_newline(line) {
        if starts_with(line, width_key()) {
            assert forall|j: int| 0 <= j < r.len() implies r[j] != '\n' by {
                if j >= 12 {
                    assert(r[j] == int_decimal(w)[j - 12]);
                }
            }
        } else if starts_with(line, height_key()) {
            assert forall|j: int| 0 <= j < r.len() implies r[j] != '\n' by {
                if j >= 13 {
                    assert(r[j] == int_decimal(h)[j - 13]);
                }
            }
        }
    }
}

/// `join` seen from the front.
proof fn lemma_join_front(parts: Seq<Seq<char>>, sep: Seq<char>)
    requires
        parts.len() >= 2,
    ensures
        join(parts, sep) == parts[0] + sep + join(parts.drop_first(), sep),
    decreases parts.len(),
{
    assert(join(parts, sep) == join(parts.drop_last(), sep) + sep + parts.last());
    if parts.len() == 2 {
        assert(parts.drop_last().len() == 1);
        assert(parts.drop_first().len() == 1);
        assert(join(parts.drop_last(), sep) == parts.drop_last()[0]);
        assert(parts.drop_last()[0] == parts[0]);
        assert(join(parts.drop_first(), sep) == parts.drop_first()[0]);
        assert(parts.drop_first()[0] == parts[1]);
        assert(parts.last() == parts[1]);
    } else {
        lemma_join_front(parts.drop_last(), sep);
        assert(parts.drop_last().drop_first() =~= parts.drop_first().drop_last());
        assert(parts.drop_first().last() == parts.last());
        assert(join(parts.drop_first(), sep) == join(parts.drop_first().drop_last(), sep) + sep
            + parts.drop_first().last());
        assert(join(parts, sep) =~= parts[0] + sep + join(parts.drop_first(), sep));
    }
}

/// Splitting joined lines gives the lines back, where none holds a line
/// feed and the last is not empty.
proof fn lemma_lines_of_join(parts: Seq<Seq<char>>)
    requires
        forall|i: int| 0 <= i < parts.len() ==> no_newline(#[trigger] parts[i]),
        parts.len() == 0 || parts.last().len() > 0,
    ensures
        lines_of(join(parts, crlf())) == parts,
    decreases parts.len(),
{
    if parts.len() == 0 {
        assert(lines_of(join(parts, crlf())) =~= parts);
    } else if parts.len() == 1 {
        let s = parts[0];
        assert(no_newline(s));
        lemma_index_of_facts(s, '\n');
        assert(lines_of(s) =~= parts);
    } else {
        lemma_join_front(parts, crlf());
        let rest = parts.drop_first();
        assert forall|i: int| 0 <= i < rest.len() implies no_newline(#[trigger] rest[i]) by {
            assert(rest[i] == parts[i + 1]);
        }
        lemma_lines_of_join(rest);
        let p0 = parts[0];
        assert(no_newline(p0));
        let s = join(parts, crlf());
        let k: int = p0.len() + 1int;
        assert(s == p0 + crlf() + join(rest, crlf()));
        assert(s[k] == '\n');
        assert forall|j: int| 0 <= j < k implies s[j] != '\n' by {
            if j < p0.len() {
                assert(s[j] == p0[j]);
            } else {
                assert(s[j] == '\r');
            }
        }
        crate::text::lemma_index_of_found(s, '\n', k);
        assert(s.take(k) =~= p0.push('\r'));
        assert(strip_cr(s.take(k)) =~= p0);
        assert(s.skip(k + 1) =~= join(rest, crlf()));
        assert(lines_of(s) =~= seq![p0] + rest);
        assert(seq![p0] + rest =~= parts);
    }
}

/// Splitting joined lines followed by a final CR LF gives the lines back,
/// the last one included even where it is empty.
proof fn lemma_lines_of_join_crlf(parts: Seq<Seq<char>>)
    requires
        parts.len() >= 1,
        forall|i: int| 0 <= i < parts.len() ==> no_newline(#[trigger] parts[i]),
    ensures
        lines_of(join(parts, crlf()) + crlf()) == parts,
    decreases parts.len(),
{
    let p0 = parts[0];
    assert(no_newline(p0));
    let s = join(parts, crlf()) + crlf();
    let k: int = p0.len() + 1int;
    let tail = if parts.len() == 1 {
        Seq::<char>::empty()
    } else {
        join(parts.drop_first(), crlf()) + crlf()
    };
    if parts.len() >= 2 {
        lemma_join_front(parts, crlf());
    }
    assert(s =~= p0 + crlf() + tail);
    assert(s[k] == '\n');
    assert forall|j: int| 0 <= j < k implies s[j] != '\n' by {
        if j < p0.len() {
            assert(s[j] == p0[j]);
        } else {
            assert(s[j] == '\r');
        }
    }
    crate::text::lemma_index_of_found(s, '\n', k);
    assert(s.take(k) =~= p0.push('\r'));
    assert(strip_cr(s.take(k)) =~= p0);
    assert(s.skip(k + 1) =~= tail);
    if parts.len() == 1 {
        assert(lines_of(tail) =~= Seq::<Seq<char>>::empty());
        assert(lines_of(s) =~= parts);
    } else {
        let rest = parts.drop_first();
        assert forall|i: int| 0 <= i < rest.len() implies no_newline(#[trigger] rest[i]) by {
            assert(rest[i] == parts[i + 1]);
        }
        lemma_lines_of_join_crlf(rest);
        assert(lines_of(s) =~= seq![p0] + rest);
        assert(seq![p0] + rest =~= parts);
    }
}

/// No line of `lines_of(s)` holds a line feed.
proof fn lemma_lines_no_newline(s: Seq<char>)
    ensures
        forall|i: int| 0 <= i < lines_of(s).len() ==> no_newline(#[trigger] lines_of(s)[i]),
    decreases s.len(),
{
    if s.len() > 0 {
        lemma_index_of_facts(s, '\n');
        match index_of(s, '\n') {
            None => {},
            Some(k) => {
                lemma_lines_no_newline(s.skip(k + 1));
                let first = strip_cr(s.take(k));
                assert(no_newline(first)) by {
                    assert forall|j: int| 0 <= j < first.len() implies first[j] != '\n' by {
                        assert(first[j] == s[j]);
                    }
                }
                let l = lines_of(s);
                assert forall|i: int| 0 <= i < l.len() implies no_newline(#[trigger] l[i]) by {
                    if i > 0 {
                        assert(l[i] == lines_of(s.skip(k + 1))[i - 1]);
                    }
                }
            },
        }
    }
}

/// The shape of the rewritten lines: none holds a line feed, a further
/// rewrite leaves each alone, the width, height and full-screen settings
/// are all among them, and the last is empty only where the input's
/// last line is empty and no setting had to be appended.
proof fn lemma_rewritten_shape(content: Seq<char>, w: int, h: int)
    ensures
        forall|i: int|
            0 <= i < rewritten_lines(lines_of(content), w, h).len() ==> no_newline(
                #[trigger] rewritten_lines(lines_of(content), w, h)[i],
            ),
        !drops_last_line(content) ==> rewritten_lines(lines_of(content), w, h).len() == 0
            || rewritten_lines(lines_of(content), w, h).last().len() > 0,
        forall|i: int|
            0 <= i < rewritten_lines(lines_of(content), w, h).len() ==> rewrite_line(
                #[trigger] rewritten_lines(lines_of(content), w, h)[i],
                w,
                h,
            ) == rewritten_lines(lines_of(content), w, h)[i],
        any_line_starts(rewritten_lines(lines_of(content), w, h), width_key()),
        any_line_starts(rewritten_lines(lines_of(content), w, h), height_key()),
        any_line_starts(rewritten_lines(lines_of(content), w, h), fullscreen_key()),
{
    reveal_strlit("Fullscreen 0");
    reveal_strlit("Fullscreen ");
    reveal_strlit("ScreenResolution_PREF ");
    let l = lines_of(content);
    let r = rewritten_lines(l, w, h);
    lemma_lines_no_newline(content);
    lemma_decimal_no_newline(w);
    lemma_decimal_no_newline(h);
    reveal_strlit("ScreenWidth ");
    reveal_strlit("ScreenHeight ");
    let base = l.map_values(|x: Seq<char>| rewrite_line(x, w, h));
    assert forall|i: int| 0 <= i < base.len() implies no_newline(#[trigger] base[i]) by {
        lemma_rewrite_line_fixed(l[i], w, h);
    }
    assert(no_newline(width_line(w))) by {
        assert forall|j: int| 0 <= j < width_line(w).len() implies width_line(w)[j] != '\n' by {
            if j >= 12 {
                assert(width_line(w)[j] == int_decimal(w)[j - 12]);
            }
        }
    }
    assert(no_newline(height_line(h))) by {
        assert forall|j: int| 0 <= j < height_line(h).len() implies height_line(h)[j] != '\n' by {
            if j >= 13 {
                assert(height_line(h)[j] == int_decimal(h)[j - 13]);
            }
        }
    }
    assert forall|i: int| 0 <= i < r.len() implies no_newline(#[trigger] r[i]) by {
        if i < base.len() {
            assert(r[i] == base[i]);
        }
    }
    if !drops_last_line(content) {
        if l.len() > 0 {
            lemma_rewrite_line_fixed(l.last(), w, h);
        }
        assert(r.len() == 0 || r.last().len() > 0);
    }
    assert forall|i: int| 0 <= i < r.len() implies rewrite_line(#[trigger] r[i], w, h) == r[i] by {
        if i < base.len() {
            lemma_rewrite_line_fixed(l[i], w, h);
        } else {
            lemma_rewrite_line_fixed(r[i], w, h);
            lemma_keys_distinct(r[i]);
            lemma_starts_with_concat(width_key(), int_decimal(w));
            lemma_starts_with_concat(height_key(), int_decimal(h));
            assert(fullscreen_off().take(11) =~= fullscreen_key());
        }
    }
    assert(any_line_starts(r, width_key())) by {
        if any_line_starts(l, width_key()) {
            let i = choose|i: int| 0 <= i < l.len() && starts_with(#[trigger] l[i], width_key());
            lemma_starts_with_concat(width_key(), int_decimal(w));
            assert(r[i] == base[i]);
        } else {
            lemma_starts_with_concat(width_key(), int_decimal(w));
            assert(starts_with(r[base.len() as int], width_key()));
        }
    }
    assert(any_line_starts(r, height_key())) by {
        lemma_starts_with_concat(height_key(), int_decimal(h));
        if any_line_starts(l, height_key()) {
            let i = choose|i: int| 0 <= i < l.len() && starts_with(#[trigger] l[i], height_key());
            lemma_keys_distinct(l[i]);
            assert(r[i] == base[i]);
        } else {
            let j = if any_line_starts(l, width_key()) {
                base.len() as int
            } else {
                base.len() + 1int
            };
            assert(starts_with(r[j], height_key()));
        }
    }
    assert(any_line_starts(r, fullscreen_key())) by {
        assert(fullscreen_off().take(11) =~= fullscreen_key());
        if any_line_starts(l, fullscreen_key()) {
            let i = choose|i: int| 0 <= i < l.len() && starts_with(#[trigger] l[i], fullscreen_key());
            lemma_keys_distinct(l[i]);
            assert(r[i] == base[i]);
        } else {
            assert(starts_with(r.last(), fullscreen_key()));
            assert(r[r.len() - 1] == r.last());
        }
    }
}

/// The input's last line is empty and it already holds the width,
/// height and full-screen settings, so nothing is appended after that empty
/// line and it ends the rewritten text.
pub open spec fn drops_last_line(content: Seq<char>) -> bool {
    let l = lines_of(content);
    &&& l.len() > 0 && l.last().len() == 0
    &&& any_line_starts(l, width_key())
    &&& any_line_starts(l, height_key())
    &&& any_line_starts(l, fullscreen_key())
}

/// The lines of the rewritten preferences: the rewritten lines, without
/// the last one where it is empty.
proof fn lemma_lines_of_rewritten(content: Seq<char>, w: int, h: int)
    ensures
        ({
            let r = rewritten_lines(lines_of(content), w, h);
            lines_of(rewritten_prefs(content, w, h)) == if r.len() > 0 && r.last().len() == 0 {
                r.drop_last()
            } else {
                r
            }
        }),
{
    lemma_rewritten_shape(content, w, h);
    let r = rewritten_lines(lines_of(content), w, h);
    if r.len() > 0 && r.last().len() == 0 {
        if r.len() == 1 {
            assert(join(r, crlf()) =~= Seq::<char>::empty());
            assert(lines_of(join(r, crlf())) =~= r.drop_last());
        } else {
            let d = r.drop_last();
            assert forall|i: int| 0 <= i < d.len() implies no_newline(#[trigger] d[i]) by {
                assert(d[i] == r[i]);
            }
            assert(join(r, crlf()) =~= join(d, crlf()) + crlf());
            lemma_lines_of_join_crlf(d);
        }
    } else {
        lemma_lines_of_join(r);
    }
}

/// Rewriting the preferences twice gives what rewriting once gives, except
/// where the input ends in an empty line and already holds every setting
/// (that empty line is lost when the rewritten text is split into lines
/// again).
pub proof fn lemma_rewrite_prefs_idempotent(content: Seq<char>, w: int, h: int)
    requires
        !drops_last_line(content),
    ensures
        rewritten_prefs(rewritten_prefs(content, w, h), w, h) == rewritten_prefs(content, w, h),
{
    lemma_rewritten_shape(content, w, h);
    lemma_lines_of_rewritten(content, w, h);
    let r = rewritten_lines(lines_of(content), w, h);
    let base2 = r.map_values(|x: Seq<char>| rewrite_line(x, w, h));
    assert(base2 =~= r);
    assert(rewritten_lines(r, w, h) =~= r);
}

/// After rewriting for a `w` by `h` window, the preferences hold a
/// `ScreenWidth w` line, a `ScreenHeight h` line and a `Fullscreen 0` line,
/// and every width, height, full-screen and resolution line reads so
/// (`ScreenResolution_PREF 0` for the last).
pub proof fn lemma_rewritten_prefs_settings(content: Seq<char>, w: int, h: int)
    ensures
        lines_of(rewritten_prefs(content, w, h)).contains(width_line(w)),
        lines_of(rewritten_prefs(content, w, h)).contains(height_line(h)),
        lines_of(rewritten_prefs(content, w, h)).contains(fullscreen_off()),
        forall|i: int|
            0 <= i < lines_of(rewritten_prefs(content, w, h)).len() ==> {
                let line = #[trigger] lines_of(rewritten_prefs(content, w, h))[i];
                &&& starts_with(line, width_key()) ==> line == width_line(w)
                &&& starts_with(line, height_key()) ==> line == height_line(h)
                &&& starts_with(line, fullscreen_key()) ==> line == fullscreen_off()
                &&& starts_with(line, resolution_key()) ==> line == resolution_off()
            },
{
    lemma_rewritten_shape(content, w, h);
    lemma_lines_of_rewritten(content, w, h);
    let r = rewritten_lines(lines_of(content), w, h);
    let lines = lines_of(rewritten_prefs(content, w, h));
    assert forall|i: int| 0 <= i < r.len() implies {
        let line = #[trigger] r[i];
        &&& starts_with(line, width_key()) ==> line == width_line(w)
        &&& starts_with(line, height_key()) ==> line == height_line(h)
        &&& starts_with(line, fullscreen_key()) ==> line == fullscreen_off()
        &&& starts_with(line, resolution_key()) ==> line == resolution_off()
    } by {
        assert(rewrite_line(r[i], w, h) == r[i]);
        lemma_keys_distinct(r[i]);
    }
    let iw = choose|i: int| 0 <= i < r.len() && starts_with(#[trigger] r[i], width_key());
    assert(rewrite_line(r[iw], w, h) == r[iw]);
    let ih = choose|i: int| 0 <= i < r.len() && starts_with(#[trigger] r[i], height_key());
    assert(rewrite_line(r[ih], w, h) == r[ih]);
    lemma_keys_distinct(r[ih]);
    let iff = choose|i: int| 0 <= i < r.len() && starts_with(#[trigger] r[i], fullscreen_key());
    assert(rewrite_line(r[iff], w, h) == r[iff]);
    lemma_keys_distinct(r[iff]);
    reveal_strlit("ScreenWidth ");
    reveal_strlit("ScreenHeight ");
    reveal_strlit("Fullscreen ");
    assert(r[iw].len() > 0 && r[ih].len() > 0 && r[iff].len() > 0);
    assert(lines.len() <= r.len());
    assert forall|i: int| 0 <= i < lines.len() implies lines[i] == r[i] by {}
    assert(lines[iw] == r[iw]);
    assert(lines[ih] == r[ih]);
    assert(lines[iff] == r[iff]);
}

// ---------------------------------------------------------------------------
// Executable functions
// ---------------------------------------------------------------------------

/// The window size, in pixels, that a size name selects.
pub fn window_size_dimensions(window_size: &str) -> (res: (i32, i32))
    ensures
        res == window_dimensions(window_size@),
{
    let s = chars_of(window_size);
    if same_chars(s.as_slice(), chars_of("small").as_slice()) {
        (800, 600)
    } else if same_chars(s.as_slice(), chars_of("medium").as_slice()) {
        (1024, 768)
    } else if same_chars(s.as_slice(), chars_of("large").as_slice()) {
        (1920, 1080)
    } else if same_chars(s.as_slice(), chars_of("2k_4").as_slice()) {
        (1280, 670)
    } else if same_chars(s.as_slice(), chars_of("2k_2").as_slice()) {
        (1280, 1370)
    } else if same_chars(s.as_slice(), chars_of("2k_full").as_slice()) {
        (2560, 1440)
    } else {
        let custom = chars_of("custom_");
        if has_prefix(s.as_slice(), custom.as_slice()) {
            let rest = strip_all_prefix(s.as_slice(), custom.as_slice());
            custom_size(rest.as_slice())
        } else {
            (800, 600)
        }
    }
}

/// The size that the text after `custom_` asks for.
fn custom_size(rest: &[char]) -> (res: (i32, i32))
    ensures
        res == custom_dimensions(rest@),
{
    match char_position(rest, 'x') {
        Some(k) => {
            proof {
                lemma_index_of_facts(rest@, 'x');
                assert(index_of(rest@, 'x') == Some(k as int));
            }
            assert(k < rest.len());
            let after = slice_chars(rest, k + 1, rest.len());
            assert(after@ =~= rest@.skip(k + 1));
            match char_position(after.as_slice(), 'x') {
                Some(_) => (800, 600),
                None => {
                    let before = slice_chars(rest, 0, k);
                    assert(before@ =~= rest@.take(k as int));
                    let w = match parse_i32(before.as_slice()) {
                        Some(w) => w,
                        None => 800,
                    };
                    let h = match parse_i32(after.as_slice()) {
                        Some(h) => h,
                        None => 600,
                    };
                    (w, h)
                },
            }
        },
        None => (800, 600),
    }
}

/// Whether the preferences live beside the game path rather than in it:
/// `is_file` tells whether the path names an existing file.
pub fn prefs_beside_game_path(game_path: &str, is_file: bool) -> (res: bool)
    ensures
        res == prefs_beside(game_path@, is_file),
{
    if is_file {
        return true;
    }
    let lower = to_lowercase(game_path);
    let l = chars_of(lower.as_str());
    let suffix = chars_of(".exe");
    if suffix.len() > l.len() {
        return false;
    }
    let tail = slice_chars(l.as_slice(), l.len() - suffix.len(), l.len());
    assert(tail@ =~= l@.skip(l@.len() - suffix@.len()));
    same_chars(tail.as_slice(), suffix.as_slice())
}

/// The lines of `s`, as `str::lines` yields them.
pub fn split_lines(s: &[char]) -> (res: Vec<Vec<char>>)
    ensures
        res@.map_values(|v: Vec<char>| v@) == lines_of(s@),
{
    let ghost views: Seq<Seq<char>> = seq![];
    let mut res: Vec<Vec<char>> = Vec::new();
    let mut start: usize = 0;
    let mut i: usize = 0;
    assert(s@.skip(0) =~= s@);
    while i < s.len()
        invariant
            start <= i <= s.len(),
            res@.len() == views.len(),
            forall|k: int| 0 <= k < views.len() ==> (#[trigger] res@[k])@ == views[k],
            lines_of(s@) == views + lines_of(s@.skip(start as int)),
            forall|j: int| start <= j < i ==> s@[j] != '\n',
        decreases s.len() - i,
    {
        if s[i] == '\n' {
            let ghost t = s@.skip(start as int);
            proof {
                let k = (i - start) as int;
                assert(t[k] == '\n');
                assert forall|j: int| 0 <= j < k implies t[j] != '\n' by {
                    assert(t[j] == s@[start + j]);
                }
                crate::text::lemma_index_of_found(t, '\n', k);
                assert(t.take(k) =~= s@.subrange(start as int, i as int));
                assert(t.skip(k + 1) =~= s@.skip(i + 1));
            }
            let end: usize = if i > start && s[i - 1] == '\r' {
                i - 1
            } else {
                i
            };
            let line = slice_chars(s, start, end);
            proof {
                let sub = s@.subrange(start as int, i as int);
                assert(line@ =~= strip_cr(sub));
                assert(lines_of(t) == seq![strip_cr(sub)] + lines_of(s@.skip(i + 1)));
                views = views.push(line@);
                assert(views.drop_last() + seq![strip_cr(sub)] =~= views);
            }
            res.push(line);
            start = i + 1;
        }
        i = i + 1;
    }
    let ghost t = s@.skip(start as int);
    if start < s.len() {
        let line = slice_chars(s, start, s.len());
        proof {
            assert forall|j: int| 0 <= j < t.len() implies t[j] != '\n' by {
                assert(t[j] == s@[start + j]);
            }
            crate::text::lemma_index_of_absent(t, '\n');
            assert(line@ =~= t);
            views = views.push(line@);
        }
        res.push(line);
    } else {
        assert(t.len() == 0);
    }
    assert(res@.map_values(|v: Vec<char>| v@) =~= views);
    res
}

/// The preferences text after rewriting for a `width` by `height` window:
/// `ScreenWidth`, `ScreenHeight`, `Fullscreen` and `ScreenResolution_PREF`
/// lines replaced, missing size and full-screen lines appended, lines joined
/// by CR LF.
pub fn rewrite_prefs(content: &str, width: i32, height: i32) -> (res: String)
    ensures
        res@ == rewritten_prefs(content@, width as int, height as int),
{
    let c = chars_of(content);
    let lines = split_lines(c.as_slice());
    let ghost l = lines@.map_values(|v: Vec<char>| v@);
    let wk = chars_of("ScreenWidth ");
    let hk = chars_of("ScreenHeight ");
    let fk = chars_of("Fullscreen ");
    let rk = chars_of("ScreenResolution_PREF ");
    let wl = concat_chars(wk.as_slice(), decimal_of(width as i64).as_slice());
    let hl = concat_chars(hk.as_slice(), decimal_of(height as i64).as_slice());
    let f0 = chars_of("Fullscreen 0");
    let r0 = chars_of("ScreenResolution_PREF 0");
    let mut out: Vec<Vec<char>> = Vec::new();
    let mut found_width = false;
    let mut found_height = false;
    let mut found_fullscreen = false;
    let mut i: usize = 0;
    while i < lines.len()
        invariant
            i <= lines.len(),
            l == lines@.map_values(|v: Vec<char>| v@),
            wk@ == width_key(),
            hk@ == height_key(),
            fk@ == fullscreen_key(),
            rk@ == resolution_key(),
            wl@ == width_line(width as int),
            hl@ == height_line(height as int),
            f0@ == fullscreen_off(),
            r0@ == resolution_off(),
            out@.len() == i,
            forall|k: int|
                0 <= k < i ==> (#[trigger] out@[k])@ == rewrite_line(l[k], width as int, height as int),
            found_width == any_line_starts(l.take(i as int), width_key()),
            found_height == any_line_starts(l.take(i as int), height_key()),
            found_fullscreen == any_line_starts(l.take(i as int), fullscreen_key()),
        decreases lines.len() - i,
    {
        let line = lines[i].as_slice();
        proof {
            lemma_keys_distinct(l[i as int]);
            assert(l.take(i + 1).drop_last() =~= l.take(i as int));
            assert(l.take(i + 1).last() == l[i as int]);
        }
        let ghost before_w = found_width;
        let ghost before_h = found_height;
        let ghost before_f = found_fullscreen;
        if has_prefix(line, wk.as_slice()) {
            out.push(concat_chars(wl.as_slice(), &[]));
            found_width = true;
        } else if has_prefix(line, hk.as_slice()) {
            out.push(concat_chars(hl.as_slice(), &[]));
            found_height = true;
        } else if has_prefix(line, fk.as_slice()) {
            out.push(concat_chars(f0.as_slice(), &[]));
            found_fullscreen = true;
        } else if has_prefix(line, rk.as_slice()) {
            out.push(concat_chars(r0.as_slice(), &[]));
        } else {
            out.push(concat_chars(line, &[]));
        }
        proof {
            let prev = l.take(i as int);
            let cur = l.take(i + 1);
            assert forall|key: Seq<char>|
                any_line_starts(cur, key) == (any_line_starts(prev, key) || starts_with(
                    l[i as int],
                    key,
                )) by {
                if any_line_starts(cur, key) {
                    let j = choose|j: int| 0 <= j < cur.len() && starts_with(#[trigger] cur[j], key);
                    if j < i {
                        assert(prev[j] == cur[j]);
                    }
                }
                if any_line_starts(prev, key) {
                    let j = choose|j: int| 0 <= j < prev.len() && starts_with(#[trigger] prev[j], key);
                    assert(cur[j] == prev[j]);
                }
                if starts_with(l[i as int], key) {
                    assert(cur[i as int] == l[i as int]);
                }
            }
        }
        i = i + 1;
    }
    proof {
        assert(l.take(lines@.len() as int) =~= l);
    }
    if !found_width {
        out.push(concat_chars(wl.as_slice(), &[]));
    }
    if !found_height {
        out.push(concat_chars(hl.as_slice(), &[]));
    }
    if !found_fullscreen {
        out.push(concat_chars(f0.as_slice(), &[]));
    }
    proof {
        let target = rewritten_lines(l, width as int, height as int);
        assert(out@.map_values(|v: Vec<char>| v@) =~= target);
    }
    let sep = vec!['\r', '\n'];
    assert(sep@ =~= crlf());
    let joined = join_chars(&out, sep.as_slice());
    crate::external::string_of(joined.as_slice())
}

} // verus!
