//! Checking stream addresses: what a response says about a stream (valid
//! M3U8, resolution, bitrate) and the tally of a verification run.
use vstd::prelude::*;

use crate::m3u::{
    has_m3u_marker, has_m3u_marker_exec, is_ok_status, probe_text, probe_text_exec,
    split_second,
};
use crate::num::{parse_i64, parse_signed};
use crate::text::{
    chars_of, find_vec_from, lemma_find_from, lines, lines_exec, matches_at, next_char_exec,
    next_char_from, opt_chars_view, starts_with, starts_with_str, string_of, sub_vec, views_of,
};

verus! {

/// Outcome counts of one verification run.
pub struct VerificationResult {
    pub total: i32,
    pub valid: i32,
    pub invalid: i32,
}

/// The number of `true` outcomes.
pub open spec fn count_true(s: Seq<bool>) -> int
    decreases s.len(),
{
    if s.len() == 0 {
        0
    } else {
        count_true(s.drop_last()) + if s.last() {
            1int
        } else {
            0
        }
    }
}

/// The count of `true` outcomes is between 0 and the number of outcomes.
pub proof fn lemma_count_true_bounds(s: Seq<bool>)
    ensures
        0 <= count_true(s) <= s.len(),
    decreases s.len(),
{
    if s.len() > 0 {
        lemma_count_true_bounds(s.drop_last());
    }
}

/// Tally of the validity outcomes of the checked items.
pub fn tally(outcomes: &Vec<bool>) -> (r: VerificationResult)
    requires
        outcomes.len() <= i32::MAX,
    ensures
        r.total == outcomes.len(),
        r.valid == count_true(outcomes@),
        r.invalid == outcomes.len() - count_true(outcomes@),
        r.valid + r.invalid == r.total,
{
    let mut valid: i32 = 0;
    let mut i: usize = 0;
    while i < outcomes.len()
        invariant
            i <= outcomes.len() <= i32::MAX,
            valid == count_true(outcomes@.subrange(0, i as int)),
            0 <= valid <= i,
        decreases outcomes.len() - i,
    {
        assert(outcomes@.subrange(0, i + 1).drop_last() =~= outcomes@.subrange(0, i as int));
        if outcomes[i] {
            valid += 1;
        }
        i += 1;
    }
    assert(outcomes@.subrange(0, outcomes.len() as int) =~= outcomes@);
    let total = outcomes.len() as i32;
    VerificationResult { total, valid, invalid: total - valid }
}

/// `line.split(key).nth(1)` cut at its first comma: the value of a
/// `KEY=value,` attribute.
pub open spec fn first_field(line: Seq<char>, key: Seq<char>) -> Option<Seq<char>> {
    match split_second(line, key) {
        Some(seg) => Some(seg.subrange(0, next_char_from(seg, ',', 0))),
        None => None,
    }
}

/// One line's effect on the (resolution, bitrate) found so far: an
/// `#EXT-X-STREAM-INF` line sets the resolution when it has one, and sets
/// the bitrate from `BANDWIDTH=` only while no bitrate is known.
pub open spec fn stream_attrs_step(line: Seq<char>, res: Option<Seq<char>>, br: Option<int>) -> (
    Option<Seq<char>>,
    Option<int>,
) {
    if starts_with(line, "#EXT-X-STREAM-INF"@) {
        let res2 = match first_field(line, "RESOLUTION="@) {
            Some(r) => Some(r),
            None => res,
        };
        let br2 = if br is None {
            match first_field(line, "BANDWIDTH="@) {
                Some(b) => parse_signed(b, i64::MIN as int, i64::MAX as int),
                None => None,
            }
        } else {
            br
        };
        (res2, br2)
    } else {
        (res, br)
    }
}

/// The (resolution, bitrate) after the lines from `i` on.
pub open spec fn stream_attrs_from(
    ls: Seq<Seq<char>>,
    i: int,
    res: Option<Seq<char>>,
    br: Option<int>,
) -> (Option<Seq<char>>, Option<int>)
    decreases ls.len() - i,
{
    if i < 0 || i >= ls.len() {
        (res, br)
    } else {
        let (r2, b2) = stream_attrs_step(ls[i], res, br);
        stream_attrs_from(ls, i + 1, r2, b2)
    }
}

pub open spec fn opt_int(o: Option<i64>) -> Option<int> {
    match o {
        Some(v) => Some(v as int),
        None => None,
    }
}

/// What a response tells of a stream: valid when the status is 200 and the
/// first bytes carry an M3U marker; then the resolution (`RESOLUTION=`) and
/// the bitrate (`BANDWIDTH=`) read from its `#EXT-X-STREAM-INF` lines.
pub open spec fn stream_check(status: u16, body: Seq<u8>) -> (
    bool,
    Option<Seq<char>>,
    Option<int>,
) {
    if !is_ok_status(status) {
        (false, None, None)
    } else {
        let text = probe_text(body);
        if !has_m3u_marker(text) {
            (false, None, None)
        } else {
            let (r, b) = stream_attrs_from(lines(text), 0, None, None);
            (true, r, b)
        }
    }
}

fn first_field_exec(line: &Vec<char>, key: &str) -> (r: Option<Vec<char>>)
    ensures
        opt_chars_view(r) == first_field(line@, key@),
{
    let pat = chars_of(key);
    let i = match find_vec_from(line, &pat, 0) {
        Some(i) => i,
        None => return None,
    };
    proof {
        lemma_find_from(line@, pat@, 0);
        assert(matches_at(line@, pat@, i as int));
    }
    let n = line.len();
    let plen = pat.len();
    assert(i + plen <= n);
    let rest = sub_vec(line, i + plen, n);
    let seg = match find_vec_from(&rest, &pat, 0) {
        Some(j) => {
            proof {
                lemma_find_from(rest@, pat@, 0);
            }
            sub_vec(&rest, 0, j)
        },
        None => rest,
    };
    let c = next_char_exec(&seg, ',', 0);
    proof {
        crate::text::lemma_next_char(seg@, ',', 0);
    }
    Some(sub_vec(&seg, 0, c))
}

fn stream_attrs_step_exec(line: &Vec<char>, res: Option<Vec<char>>, br: Option<i64>) -> (r: (
    Option<Vec<char>>,
    Option<i64>,
))
    ensures
        (opt_chars_view(r.0), opt_int(r.1)) == stream_attrs_step(line@, opt_chars_view(res), opt_int(br)),
{
    if starts_with_str(line, "#EXT-X-STREAM-INF") {
        let res2 = match first_field_exec(line, "RESOLUTION=") {
            Some(v) => Some(v),
            None => res,
        };
        let br2 = if br.is_none() {
            match first_field_exec(line, "BANDWIDTH=") {
                Some(b) => parse_i64(&b),
                None => None,
            }
        } else {
            br
        };
        (res2, br2)
    } else {
        (res, br)
    }
}

/// Analyses a stream's response: its status and body.
pub fn analyze_stream_response(status: u16, body: &Vec<u8>) -> (r: (
    bool,
    Option<String>,
    Option<i64>,
))
    ensures
        (r.0, r.1.deep_view(), opt_int(r.2)) == stream_check(status, body@),
{
    if status != 200 {
        return (false, None, None);
    }
    let text = probe_text_exec(body);
    if !has_m3u_marker_exec(&text) {
        return (false, None, None);
    }
    let mut bitrate: Option<i64> = None;
    let mut resolution: Option<Vec<char>> = None;
    let ls = lines_exec(&text);
    let ghost v = views_of(ls@);
    let mut i: usize = 0;
    while i < ls.len()
        invariant
            i <= ls.len(),
            v == views_of(ls@),
            stream_attrs_from(v, 0, None, None) == stream_attrs_from(
                v,
                i as int,
                opt_chars_view(resolution),
                opt_int(bitrate),
            ),
        decreases ls.len() - i,
    {
        assert(v[i as int] == ls@[i as int]@);
        let (r2, b2) = stream_attrs_step_exec(&ls[i], resolution, bitrate);
        resolution = r2;
        bitrate = b2;
        i += 1;
    }
    let res_s = match resolution {
        Some(r) => Some(string_of(&r)),
        None => None,
    };
    (true, res_s, bitrate)
}

} // verus!
