//! Extraction of the readable strings in a binary file: runs of printable
//! ASCII, read both byte by byte and as little-endian UTF-16 units.
use crate::external::string_of;
use vstd::prelude::*;

verus! {

/// The shortest run that counts as a string.
pub open spec fn min_run() -> nat {
    6
}

pub open spec fn printable(v: int) -> bool {
    32 <= v && v <= 126
}

/// The runs reported while scanning `units` with `cur` already collected:
/// a run is reported when a unprintable unit ends it and it has at least
/// six characters; a run still open at the end is not reported.
pub open spec fn runs_from(units: Seq<int>, cur: Seq<char>) -> Seq<Seq<char>>
    decreases units.len(),
{
    if units.len() == 0 {
        seq![]
    } else if printable(units[0]) {
        runs_from(units.drop_first(), cur.push(units[0] as char))
    } else {
        (if cur.len() >= min_run() {
            seq![cur]
        } else {
            seq![]
        }) + runs_from(units.drop_first(), seq![])
    }
}

/// The bytes as units.
pub open spec fn byte_units(bytes: Seq<u8>) -> Seq<int> {
    Seq::new(bytes.len(), |i: int| bytes[i] as int)
}

/// The bytes as little-endian 16-bit units; a last odd byte is ignored.
pub open spec fn utf16_units(bytes: Seq<u8>) -> Seq<int> {
    Seq::new(bytes.len() / 2, |i: int| bytes[2 * i] as int + 256 * bytes[2 * i + 1] as int)
}

proof fn lemma_runs_step(units: Seq<int>, i: int, cur: Seq<char>)
    requires
        0 <= i < units.len(),
    ensures
        runs_from(units.skip(i), cur) == if printable(units[i]) {
            runs_from(units.skip(i + 1), cur.push(units[i] as char))
        } else {
            (if cur.len() >= min_run() {
                seq![cur]
            } else {
                seq![]
            }) + runs_from(units.skip(i + 1), seq![])
        },
{
    assert(units.skip(i).drop_first() =~= units.skip(i + 1));
    assert(units.skip(i)[0] == units[i]);
}

/// The printable runs of at least six characters in `units`, as strings
/// (with `prefix` before each).
fn collect_runs(units: &Vec<u32>, prefix: &str) -> (res: Vec<String>)
    ensures
        res@.len() == runs_from(units@.map_values(|u: u32| u as int), seq![]).len(),
        forall|k: int|
            0 <= k < res@.len() ==> (#[trigger] res@[k])@ == prefix@ + runs_from(
                units@.map_values(|u: u32| u as int),
                seq![],
            )[k],
{
    let ghost us = units@.map_values(|u: u32| u as int);
    let ghost emitted: Seq<Seq<char>> = seq![];
    let mut res: Vec<String> = Vec::new();
    let mut cur: Vec<char> = Vec::new();
    let pre = crate::text::chars_of(prefix);
    let mut i: usize = 0;
    assert(us.skip(0) =~= us);
    while i < units.len()
        invariant
            i <= units.len(),
            us == units@.map_values(|u: u32| u as int),
            pre@ == prefix@,
            res@.len() == emitted.len(),
            forall|k: int| 0 <= k < emitted.len() ==> (#[trigger] res@[k])@ == prefix@ + emitted[k],
            runs_from(us, seq![]) == emitted + runs_from(us.skip(i as int), cur@),
        decreases units.len() - i,
    {
        let u = units[i];
        proof {
            lemma_runs_step(us, i as int, cur@);
            assert(us[i as int] == u as int);
        }
        if 32 <= u && u <= 126 {
            let c = (u as u8) as char;
            assert(c == (us[i as int] as char));
            cur.push(c);
        } else {
            if cur.len() >= 6 {
                let line = crate::text::concat_chars(pre.as_slice(), cur.as_slice());
                proof {
                    emitted = emitted.push(cur@);
                    assert(runs_from(us, seq![]) =~= emitted + runs_from(us.skip(i + 1), seq![]));
                }
                res.push(string_of(line.as_slice()));
            } else {
                assert(runs_from(us, seq![]) =~= emitted + runs_from(us.skip(i + 1), seq![]));
            }
            cur = Vec::new();
        }
        i = i + 1;
    }
    assert(us.skip(i as int).len() == 0);
    assert(emitted + runs_from(us.skip(i as int), cur@) =~= emitted);
    res
}

/// The printable ASCII runs of at least six bytes in `bytes`, each ended by
/// an unprintable byte.
pub fn ascii_strings(bytes: &[u8]) -> (res: Vec<String>)
    ensures
        res@.len() == runs_from(byte_units(bytes@), seq![]).len(),
        forall|k: int|
            0 <= k < res@.len() ==> (#[trigger] res@[k])@ == runs_from(byte_units(bytes@), seq![])[k],
{
    let mut units: Vec<u32> = Vec::new();
    let mut i: usize = 0;
    while i < bytes.len()
        invariant
            i <= bytes.len(),
            units@.len() == i,
            forall|k: int| 0 <= k < i ==> (#[trigger] units@[k]) as int == bytes@[k] as int,
        decreases bytes.len() - i,
    {
        units.push(bytes[i] as u32);
        i = i + 1;
    }
    assert(units@.map_values(|u: u32| u as int) =~= byte_units(bytes@));
    let res = collect_runs(&units, "");
    assert forall|k: int| 0 <= k < res@.len() implies (#[trigger] res@[k])@ == runs_from(
        byte_units(bytes@),
        seq![],
    )[k] by {
        assert(""@ + runs_from(byte_units(bytes@), seq![])[k] =~= runs_from(
            byte_units(bytes@),
            seq![],
        )[k]) by {
            reveal_strlit("");
        }
    }
    res
}

/// The printable runs of at least six little-endian UTF-16 units in
/// `bytes`, each ended by an unprintable unit, as `U: <run>`.
pub fn utf16_strings(bytes: &[u8]) -> (res: Vec<String>)
    ensures
        res@.len() == runs_from(utf16_units(bytes@), seq![]).len(),
        forall|k: int|
            0 <= k < res@.len() ==> (#[trigger] res@[k])@ == "U: "@ + runs_from(
                utf16_units(bytes@),
                seq![],
            )[k],
{
    let mut units: Vec<u32> = Vec::new();
    let n = bytes.len() / 2;
    let mut i: usize = 0;
    while i < n
        invariant
            i <= n,
            n == bytes.len() / 2,
            units@.len() == i,
            forall|k: int|
                0 <= k < i ==> (#[trigger] units@[k]) as int == bytes@[2 * k] as int + 256
                    * bytes@[2 * k + 1] as int,
        decreases n - i,
    {
        assert(2 * i + 1 < bytes.len());
        let lo = bytes[2 * i] as u32;
        let hi = bytes[2 * i + 1] as u32;
        units.push(lo + 256 * hi);
        i = i + 1;
    }
    assert(units@.map_values(|u: u32| u as int) =~= utf16_units(bytes@));
    collect_runs(&units, "U: ")
}

} // verus!
