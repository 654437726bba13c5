//! The fallback path: scanning a global processor-information text for
//! per-processor current-frequency lines.
//!
//! The source is a newline-delimited `key : value` listing. Every line whose
//! key begins, case-insensitively, with `cpu mhz` carries the current
//! frequency in megahertz as its fourth whitespace-separated token. Each such
//! line yields one sample with only the current field set; a matched line
//! whose token does not parse is skipped rather than failing the whole read.

use vstd::prelude::*;
use crate::sample::CpuFreqs;
use crate::text::is_ascii_ws;
use crate::text::spec_parse_mhz_token;
use crate::text::parse_mhz_token;

verus! {

/// ASCII lower-casing of one byte; other bytes are left alone.
pub open spec fn to_lower(b: u8) -> u8 {
    if 65 <= b && b <= 90 {
        (b + 32) as u8
    } else {
        b
    }
}

/// The line's first seven bytes spell `cpu mhz`, ignoring ASCII case.
pub open spec fn line_matches(l: Seq<u8>) -> bool {
    &&& l.len() >= 7
    &&& to_lower(l[0]) == 99
    &&& to_lower(l[1]) == 112
    &&& to_lower(l[2]) == 117
    &&& to_lower(l[3]) == 32
    &&& to_lower(l[4]) == 109
    &&& to_lower(l[5]) == 104
    &&& to_lower(l[6]) == 122
}

/// The lines of `s` from position `i` on, with `cur` the part of the
/// current line read so far. Lines are split at line feeds; a final line
/// needs no terminator.
pub open spec fn lines_from(s: Seq<u8>, i: int, cur: Seq<u8>) -> Seq<Seq<u8>>
    decreases s.len() - i,
{
    if i < 0 || i >= s.len() {
        seq![cur]
    } else if s[i] == 10 {
        seq![cur] + lines_from(s, i + 1, Seq::empty())
    } else {
        lines_from(s, i + 1, cur.push(s[i]))
    }
}

/// The lines of `s`.
pub open spec fn spec_lines(s: Seq<u8>) -> Seq<Seq<u8>> {
    lines_from(s, 0, Seq::empty())
}

/// The whitespace-separated tokens of `s` from position `i` on, with `cur`
/// the part of the current token read so far. Runs of whitespace separate
/// tokens; empty tokens do not occur.
pub open spec fn tokens_from(s: Seq<u8>, i: int, cur: Seq<u8>) -> Seq<Seq<u8>>
    decreases s.len() - i,
{
    if i < 0 || i >= s.len() {
        if cur.len() > 0 {
            seq![cur]
        } else {
            Seq::empty()
        }
    } else if is_ascii_ws(s[i]) {
        if cur.len() > 0 {
            seq![cur] + tokens_from(s, i + 1, Seq::empty())
        } else {
            tokens_from(s, i + 1, Seq::empty())
        }
    } else {
        tokens_from(s, i + 1, cur.push(s[i]))
    }
}

/// The whitespace-separated tokens of `s`.
pub open spec fn spec_tokens(s: Seq<u8>) -> Seq<Seq<u8>> {
    tokens_from(s, 0, Seq::empty())
}

/// What one line contributes: the parsed fourth token of a matching line,
/// nothing otherwise.
pub open spec fn line_khz(l: Seq<u8>) -> Option<u64> {
    if line_matches(l) && spec_tokens(l).len() >= 4 {
        spec_parse_mhz_token(spec_tokens(l)[3])
    } else {
        None
    }
}

/// The kilohertz readings contributed by a sequence of lines, in line
/// order.
pub open spec fn lines_khz(ls: Seq<Seq<u8>>) -> Seq<u64>
    decreases ls.len(),
{
    if ls.len() == 0 {
        Seq::empty()
    } else {
        match line_khz(ls.first()) {
            Some(v) => seq![v] + lines_khz(ls.drop_first()),
            None => lines_khz(ls.drop_first()),
        }
    }
}

/// The kilohertz readings of the whole text, in file order.
pub open spec fn spec_cpuinfo_khz(data: Seq<u8>) -> Seq<u64> {
    lines_khz(spec_lines(data))
}

/// Number of matching lines among `ls`.
pub open spec fn count_matching(ls: Seq<Seq<u8>>) -> nat
    decreases ls.len(),
{
    if ls.len() == 0 {
        0
    } else {
        (if line_matches(ls.first()) {
            1nat
        } else {
            0nat
        }) + count_matching(ls.drop_first())
    }
}

/// When every matching line contributes a reading, the readings are in
/// one-to-one correspondence with the matching lines.
proof fn lemma_khz_len_counts_matching(ls: Seq<Seq<u8>>)
    requires
        forall|i: int| 0 <= i < ls.len() && line_matches(ls[i]) ==> line_khz(ls[i]) is Some,
    ensures
        lines_khz(ls).len() == count_matching(ls),
    decreases ls.len(),
{
    if ls.len() > 0 {
        assert(ls[0] == ls.first());
        assert(forall|i: int|
            0 <= i < ls.drop_first().len() && line_matches(ls.drop_first()[i]) ==> line_khz(
                ls.drop_first()[i],
            ) is Some);
        lemma_khz_len_counts_matching(ls.drop_first());
    }
}

/// The fallback path yields exactly one sample per matching line of the
/// text, provided each matching line carries a parsable value token. A
/// matching line whose token does not parse is skipped and contributes no
/// sample.
pub proof fn lemma_fallback_sample_count(data: Seq<u8>)
    requires
        forall|i: int|
            0 <= i < spec_lines(data).len() && line_matches(spec_lines(data)[i]) ==> line_khz(
                spec_lines(data)[i],
            ) is Some,
    ensures
        spec_cpuinfo_khz(data).len() == count_matching(spec_lines(data)),
{
    lemma_khz_len_counts_matching(spec_lines(data));
}

/// Splits `data` into its lines.
fn split_lines(data: &[u8]) -> (r: Vec<Vec<u8>>)
    ensures
        r@.map_values(|l: Vec<u8>| l@) == spec_lines(data@),
{
    let mut res: Vec<Vec<u8>> = Vec::new();
    let mut cur: Vec<u8> = Vec::new();
    let mut i: usize = 0;
    while i < data.len()
        invariant
            0 <= i <= data@.len(),
            spec_lines(data@) == res@.map_values(|l: Vec<u8>| l@) + lines_from(
                data@,
                i as int,
                cur@,
            ),
        decreases data@.len() - i,
    {
        if data[i] == 10 {
            let ghost old_res = res@;
            let ghost old_cur = cur@;
            res.push(cur);
            cur = Vec::new();
            proof {
                assert(res@.map_values(|l: Vec<u8>| l@) =~= old_res.map_values(|l: Vec<u8>| l@)
                    + seq![old_cur]);
            }
        } else {
            cur.push(data[i]);
        }
        i = i + 1;
    }
    let ghost old_res = res@;
    let ghost old_cur = cur@;
    res.push(cur);
    proof {
        assert(res@.map_values(|l: Vec<u8>| l@) =~= old_res.map_values(|l: Vec<u8>| l@)
            + seq![old_cur]);
    }
    res
}

/// Splits `line` into its whitespace-separated tokens.
fn split_tokens(line: &[u8]) -> (r: Vec<Vec<u8>>)
    ensures
        r@.map_values(|t: Vec<u8>| t@) == spec_tokens(line@),
{
    let mut res: Vec<Vec<u8>> = Vec::new();
    let mut cur: Vec<u8> = Vec::new();
    let mut i: usize = 0;
    while i < line.len()
        invariant
            0 <= i <= line@.len(),
            spec_tokens(line@) == res@.map_values(|t: Vec<u8>| t@) + tokens_from(
                line@,
                i as int,
                cur@,
            ),
        decreases line@.len() - i,
    {
        let b = line[i];
        if b == 32 || (9 <= b && b <= 13) {
            if cur.len() > 0 {
                let ghost old_res = res@;
                let ghost old_cur = cur@;
                res.push(cur);
                cur = Vec::new();
                proof {
                    assert(res@.map_values(|t: Vec<u8>| t@) =~= old_res.map_values(
                        |t: Vec<u8>| t@,
                    ) + seq![old_cur]);
                }
            } else {
                proof {
                    assert(cur@ =~= Seq::<u8>::empty());
                }
            }
        } else {
            cur.push(b);
        }
        i = i + 1;
    }
    if cur.len() > 0 {
        let ghost old_res = res@;
        let ghost old_cur = cur@;
        res.push(cur);
        proof {
            assert(res@.map_values(|t: Vec<u8>| t@) =~= old_res.map_values(|t: Vec<u8>| t@)
                + seq![old_cur]);
        }
    }
    res
}

/// Whether the line begins, case-insensitively, with `cpu mhz`.
fn line_matches_exec(line: &[u8]) -> (b: bool)
    ensures
        b == line_matches(line@),
{
    if line.len() < 7 {
        return false;
    }
    lower_byte(line[0]) == 99 && lower_byte(line[1]) == 112 && lower_byte(line[2]) == 117
        && lower_byte(line[3]) == 32 && lower_byte(line[4]) == 109 && lower_byte(line[5]) == 104
        && lower_byte(line[6]) == 122
}

/// ASCII lower-casing of one byte.
fn lower_byte(b: u8) -> (r: u8)
    ensures
        r == to_lower(b),
{
    if 65 <= b && b <= 90 {
        b + 32
    } else {
        b
    }
}

/// Scans the processor-information text and returns one sample per matching
/// line that carries a parsable megahertz token, in file order; only the
/// current field is ever set.
pub fn parse_cpuinfo(data: &[u8]) -> (r: Vec<CpuFreqs>)
    ensures
        r@.len() == spec_cpuinfo_khz(data@).len(),
        forall|i: int|
            0 <= i < r@.len() ==> r@[i] == (CpuFreqs {
                min: None,
                max: None,
                cur: Some(spec_cpuinfo_khz(data@)[i]),
            }),
{
    let lines = split_lines(data);
    let ghost lsv = lines@.map_values(|l: Vec<u8>| l@);
    let ghost vals = lines_khz(lsv);
    let mut res: Vec<CpuFreqs> = Vec::new();
    let mut k: usize = 0;
    proof {
        assert(lsv.skip(0) =~= lsv);
        assert(vals.skip(0) =~= vals);
    }
    while k < lines.len()
        invariant
            0 <= k <= lines@.len(),
            lsv == lines@.map_values(|l: Vec<u8>| l@),
            vals == lines_khz(lsv),
            res@.len() <= vals.len(),
            lines_khz(lsv.skip(k as int)) == vals.skip(res@.len() as int),
            forall|i: int|
                0 <= i < res@.len() ==> res@[i] == (CpuFreqs {
                    min: None,
                    max: None,
                    cur: Some(vals[i]),
                }),
        decreases lines@.len() - k,
    {
        proof {
            assert(lsv.skip(k as int).first() == lsv[k as int]);
            assert(lsv.skip(k as int).drop_first() =~= lsv.skip(k as int + 1));
            assert(lsv[k as int] == lines@[k as int]@);
        }
        let line = &lines[k];
        let mut parsed: Option<u64> = None;
        if line_matches_exec(line.as_slice()) {
            let toks = split_tokens(line.as_slice());
            if toks.len() >= 4 {
                proof {
                    assert(toks@.map_values(|t: Vec<u8>| t@)[3] == toks@[3]@);
                }
                parsed = parse_mhz_token(toks[3].as_slice());
            }
        }
        proof {
            assert(parsed == line_khz(lsv[k as int]));
        }
        match parsed {
            Some(v) => {
                proof {
                    let rl = res@.len() as int;
                    assert(lines_khz(lsv.skip(k as int)) == seq![v] + lines_khz(
                        lsv.skip(k as int + 1),
                    ));
                    assert(vals.skip(rl).len() >= 1);
                    assert(vals.skip(rl)[0] == v);
                    assert(vals[rl] == vals.skip(rl)[0]);
                    assert((seq![v] + lines_khz(lsv.skip(k as int + 1))).drop_first()
                        =~= lines_khz(lsv.skip(k as int + 1)));
                    assert(vals.skip(rl).drop_first() =~= vals.skip(rl + 1));
                    assert(lines_khz(lsv.skip(k as int + 1)) == vals.skip(rl + 1));
                }
                res.push(CpuFreqs { min: None, max: None, cur: Some(v) });
            },
            None => {
                proof {
                    assert(lines_khz(lsv.skip(k as int)) == lines_khz(lsv.skip(k as int + 1)));
                }
            },
        }
        k = k + 1;
    }
    proof {
        assert(lsv.skip(lines@.len() as int) =~= Seq::<Seq<u8>>::empty());
        assert(vals.skip(res@.len() as int) =~= Seq::<u64>::empty());
    }
    res
}

} // verus!
