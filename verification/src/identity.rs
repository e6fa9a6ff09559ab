//! The per-launch identity of a game client: what the launcher hands the
//! client in its macro file (the credentials to type and whether the
//! hardware-id protection is on), and the substitute hardware values that
//! the protection reports, all derived from one random MAC address.
use crate::external::{ascii_lower, lower_hex, lower_hex2, random_bytes};
use crate::prefs::{lines_of, split_lines};
use crate::text::{chars_of, same_chars, trim_chars, trimmed};
use vstd::prelude::*;
use vstd::utf8::*;

verus! {

/// What a client does with its macro file: the user name and password to
/// type (the first two lines, where there are two), and whether the
/// hardware-id protection is on.
#[derive(Debug, Clone)]
pub struct MacroPlan {
    pub credentials: Option<(String, String)>,
    pub spoofer_active: bool,
}

/// `s` with `A`..`Z` turned to `a`..`z`.
pub open spec fn ascii_lowered(s: Seq<char>) -> Seq<char> {
    s.map_values(|c: char| ascii_lower(c))
}

/// The protection stays on unless the third line, trimmed, is `false` in
/// any ASCII case.
pub open spec fn spoofer_on(lines: Seq<Seq<char>>) -> bool {
    !(lines.len() >= 3 && ascii_lowered(trimmed(lines[2])) == "false"@)
}

/// A random MAC address made locally administered and unicast: bit 1 of
/// the first byte set, bit 0 cleared, the other bytes as drawn.
pub open spec fn spoofed(random: Seq<u8>) -> Seq<u8> {
    random.update(0, ((random[0] | 0x02) & 0xFE) as u8)
}

/// The hex digit of a value below 16, upper-case.
pub open spec fn upper_hex_digit(v: int) -> char {
    if v < 10 {
        ('0' as int + v) as char
    } else {
        ('A' as int + v - 10) as char
    }
}

/// A byte as two upper-case hex digits.
pub open spec fn upper_hex2(b: u8) -> Seq<char> {
    seq![upper_hex_digit(b as int / 16), upper_hex_digit(b as int % 16)]
}

/// `prefix` followed by the first two bytes of `mac` in upper-case hex.
pub open spec fn mac_tag(prefix: Seq<char>, mac: Seq<u8>) -> Seq<char> {
    prefix + upper_hex2(mac[0]) + upper_hex2(mac[1])
}

/// What the client does with the macro file's contents.
pub fn macro_plan(content: &str) -> (res: MacroPlan)
    ensures
        match res.credentials {
            Some((u, p)) => lines_of(content@).len() >= 2 && u@ == lines_of(content@)[0] && p@
                == lines_of(content@)[1],
            None => lines_of(content@).len() < 2,
        },
        res.spoofer_active == spoofer_on(lines_of(content@)),
{
    let c = chars_of(content);
    let lines = split_lines(c.as_slice());
    proof {
        assert(lines@.len() == lines_of(content@).len());
    }
    let credentials = if lines.len() >= 2 {
        let u = crate::external::string_of(lines[0].as_slice());
        let p = crate::external::string_of(lines[1].as_slice());
        proof {
            assert(lines@.map_values(|v: Vec<char>| v@)[0] == lines@[0]@);
            assert(lines@.map_values(|v: Vec<char>| v@)[1] == lines@[1]@);
        }
        Some((u, p))
    } else {
        None
    };
    let mut spoofer_active = true;
    if lines.len() >= 3 {
        proof {
            assert(lines@.map_values(|v: Vec<char>| v@)[2] == lines@[2]@);
        }
        let t = trim_chars(lines[2].as_slice());
        let lowered = ascii_lower_chars(t.as_slice());
        let f = chars_of("false");
        if same_chars(lowered.as_slice(), f.as_slice()) {
            spoofer_active = false;
        }
    }
    MacroPlan { credentials, spoofer_active }
}

/// `s` with `A`..`Z` turned to `a`..`z`, as `eq_ignore_ascii_case`
/// compares it.
pub fn ascii_lower_chars(s: &[char]) -> (res: Vec<char>)
    ensures
        res@ == ascii_lowered(s@),
{
    let mut res: Vec<char> = Vec::new();
    let mut i: usize = 0;
    while i < s.len()
        invariant
            i <= s.len(),
            res@ == ascii_lowered(s@.take(i as int)),
        decreases s.len() - i,
    {
        let c = s[i];
        let l = if 'A' <= c && c <= 'Z' {
            ((c as u32) + 32) as u8 as char
        } else {
            c
        };
        assert(l == ascii_lower(c));
        res.push(l);
        assert(s@.take(i + 1) =~= s@.take(i as int).push(c));
        assert(res@ =~= ascii_lowered(s@.take(i + 1)));
        i = i + 1;
    }
    assert(s@.take(s.len() as int) =~= s@);
    res
}

/// The MAC address that the protection reports, made from six random
/// bytes.
pub fn spoofed_mac(random: [u8; 6]) -> (res: [u8; 6])
    ensures
        res@ == spoofed(random@),
{
    let first = (random[0] | 0x02) & 0xFE;
    let res = [first, random[1], random[2], random[3], random[4], random[5]];
    assert(res@ =~= spoofed(random@));
    res
}

/// A fresh MAC address for the protection to report, or `None` where the
/// operating system supplies no random bytes.
pub fn random_mac() -> (res: Option<[u8; 6]>)
    ensures
        res matches Some(m) ==> exists|r: Seq<u8>| r.len() == 6 && m@ == #[trigger] spoofed(r),
{
    let bytes = random_bytes(6)?;
    let raw = [bytes[0], bytes[1], bytes[2], bytes[3], bytes[4], bytes[5]];
    let m = spoofed_mac(raw);
    Some(m)
}

fn upper_hex_char(v: u8) -> (c: char)
    requires
        v < 16,
    ensures
        c == upper_hex_digit(v as int),
{
    if v < 10 {
        (48 + v) as char
    } else {
        (55 + v) as char
    }
}

fn tag_of(prefix: &str, mac: [u8; 6]) -> (res: String)
    ensures
        res@ == mac_tag(prefix@, mac@),
{
    let mut c = chars_of(prefix);
    c.push(upper_hex_char(mac[0] / 16));
    c.push(upper_hex_char(mac[0] % 16));
    c.push(upper_hex_char(mac[1] / 16));
    c.push(upper_hex_char(mac[1] % 16));
    let res = crate::external::string_of(c.as_slice());
    assert(res@ =~= mac_tag(prefix@, mac@));
    res
}

/// The machine GUID that the protection reports: `fake-` and the first two
/// bytes of the MAC address in upper-case hex.
pub fn fake_machine_guid(mac: [u8; 6]) -> (res: String)
    ensures
        res@ == mac_tag("fake-"@, mac@),
{
    tag_of("fake-", mac)
}

/// The computer name that the protection reports: `PC-` and the first two
/// bytes of the MAC address in upper-case hex.
pub fn fake_computer_name(mac: [u8; 6]) -> (res: String)
    ensures
        res@ == mac_tag("PC-"@, mac@),
{
    tag_of("PC-", mac)
}

/// The volume serial number that the protection reports: the real one with
/// its low 16 bits XOR-ed with the first two bytes of the MAC address.
pub fn spoofed_volume_serial(serial: u32, mac: [u8; 6]) -> (res: u32)
    ensures
        res == serial ^ ((mac[0] as u32) | ((mac[1] as u32) << 8)),
{
    serial ^ ((mac[0] as u32) | ((mac[1] as u32) << 8))
}

proof fn lemma_lower_hex_push(a: Seq<u8>, x: u8)
    ensures
        lower_hex(a.push(x)) == lower_hex(a) + lower_hex2(x),
    decreases a.len(),
{
    if a.len() == 0 {
        assert(a.push(x).skip(1) =~= Seq::<u8>::empty());
        assert(a.push(x)[0] == x);
        assert(lower_hex(Seq::<u8>::empty()) == Seq::<char>::empty());
        assert(lower_hex(a) == Seq::<char>::empty());
        assert(lower_hex(a.push(x)) =~= lower_hex2(x));
    } else {
        assert(a.push(x).skip(1) =~= a.skip(1).push(x));
        lemma_lower_hex_push(a.skip(1), x);
        assert(lower_hex(a.push(x)) =~= lower_hex(a) + lower_hex2(x));
    }
}

fn lower_hex_char(v: u8) -> (c: char)
    requires
        v < 16,
    ensures
        c == crate::external::lower_hex_digit(v as int),
{
    if v < 10 {
        (48 + v) as char
    } else {
        (87 + v) as char
    }
}

/// The lower-case hex of a text's UTF-8 bytes, two digits a byte: the form
/// in which the credentials are handed to the login page's script.
pub fn hex_of_text(s: &str) -> (res: String)
    ensures
        res@ == lower_hex(encode_utf8(s@)),
{
    let b = s.as_bytes();
    let mut c: Vec<char> = Vec::new();
    let mut i: usize = 0;
    while i < b.len()
        invariant
            i <= b.len(),
            b@ == encode_utf8(s@),
            c@ == lower_hex(b@.take(i as int)),
        decreases b.len() - i,
    {
        let x = b[i];
        proof {
            lemma_lower_hex_push(b@.take(i as int), x);
            assert(b@.take(i + 1) =~= b@.take(i as int).push(x));
        }
        c.push(lower_hex_char(x / 16));
        c.push(lower_hex_char(x % 16));
        assert(c@ =~= lower_hex(b@.take(i + 1)));
        i = i + 1;
    }
    assert(b@.take(b.len() as int) =~= b@);
    crate::external::string_of(c.as_slice())
}

} // verus!
