//! Talking to the media server: stream protocols, the server's endpoints,
//! path-segment encoding, and the reading of its answers.
use vstd::prelude::*;

use vstd::string::{StrSliceExecFns, StringSliceAdditionalSpecFns};

use crate::text::{
    lemma_search_meaning, occurs, prefixed, suffixed,
    append_str, append_vec, chars_of, decode_utf8_lossy, utf8_lossy, contains, contains_str, ends_with, ends_with_str,
    starts_with, starts_with_str, string_of, sub_vec,
};

verus! {

/// A stream-pull request as the media server takes it.
pub struct PullRequest {
    pub url: String,
    pub stream_id: String,
}

// ---------------------------------------------------------------------------
// Protocols
// ---------------------------------------------------------------------------

/// The text `str::to_lowercase` gives for a text.
pub uninterp spec fn lowercase(s: Seq<char>) -> Seq<char>;

/// Calls `str::to_lowercase` (Unicode lowercase mapping).  The contract only
/// names the result (`lowercase`); the Unicode mapping is not restated.
#[verifier::external_body]
fn to_lowercase_chars(s: &str) -> (r: Vec<char>)
    ensures
        r@ == lowercase(s@),
{
    s.to_lowercase().chars().collect()
}

/// The protocol of a stream address, read from its lowercased text:
/// by scheme for RTMP(S) and RTSP(S), by `.m3u8` / `.flv` ending (or before a
/// query) for HLS and FLV, and other HTTP(S) addresses count as FLV.
pub open spec fn protocol_of_lowered(l: Seq<char>) -> Seq<char> {
    if starts_with(l, "rtmp://"@) || starts_with(l, "rtmps://"@) {
        "rtmp"@
    } else if starts_with(l, "rtsp://"@) || starts_with(l, "rtsps://"@) {
        "rtsp"@
    } else if ends_with(l, ".m3u8"@) || contains(l, ".m3u8?"@) {
        "hls"@
    } else if ends_with(l, ".flv"@) || contains(l, ".flv?"@) {
        "flv"@
    } else if starts_with(l, "http://"@) || starts_with(l, "https://"@) {
        "flv"@
    } else {
        "unknown"@
    }
}

/// An address with an RTMP or RTSP scheme (secure or not).
pub open spec fn has_stream_scheme(l: Seq<char>) -> bool {
    prefixed(l, "rtmp://"@) || prefixed(l, "rtmps://"@) || prefixed(l, "rtsp://"@) || prefixed(l, "rtsps://"@)
}

/// How the protocol is read from a lowercased address: the scheme decides
/// first (`rtmp://`/`rtmps://` is RTMP, `rtsp://`/`rtsps://` is RTSP); then
/// `.m3u8` at the end or before a query is HLS, `.flv` likewise FLV; any
/// other `http://`/`https://` address is FLV, and the rest is unknown.
pub proof fn lemma_protocol_by_text(l: Seq<char>)
    ensures
        prefixed(l, "rtmp://"@) || prefixed(l, "rtmps://"@) ==> protocol_of_lowered(l) == "rtmp"@,
        prefixed(l, "rtsp://"@) || prefixed(l, "rtsps://"@) ==> protocol_of_lowered(l) == "rtsp"@,
        !has_stream_scheme(l) && (suffixed(l, ".m3u8"@) || occurs(l, ".m3u8?"@))
            ==> protocol_of_lowered(l) == "hls"@,
        !has_stream_scheme(l) && !(suffixed(l, ".m3u8"@) || occurs(l, ".m3u8?"@)) && (suffixed(
            l,
            ".flv"@,
        ) || occurs(l, ".flv?"@)) ==> protocol_of_lowered(l) == "flv"@,
        !has_stream_scheme(l) && !(suffixed(l, ".m3u8"@) || occurs(l, ".m3u8?"@)) && !(suffixed(
            l,
            ".flv"@,
        ) || occurs(l, ".flv?"@)) && (prefixed(l, "http://"@) || prefixed(l, "https://"@))
            ==> protocol_of_lowered(l) == "flv"@,
        !has_stream_scheme(l) && !(suffixed(l, ".m3u8"@) || occurs(l, ".m3u8?"@)) && !(suffixed(
            l,
            ".flv"@,
        ) || occurs(l, ".flv?"@)) && !(prefixed(l, "http://"@) || prefixed(l, "https://"@))
            ==> protocol_of_lowered(l) == "unknown"@,
{
    reveal_strlit("rtmp://");
    reveal_strlit("rtmps://");
    reveal_strlit("rtsp://");
    reveal_strlit("rtsps://");
    lemma_search_meaning(l, "rtmp://"@);
    lemma_search_meaning(l, "rtmps://"@);
    lemma_search_meaning(l, "rtsp://"@);
    lemma_search_meaning(l, "rtsps://"@);
    lemma_search_meaning(l, ".m3u8"@);
    lemma_search_meaning(l, ".m3u8?"@);
    lemma_search_meaning(l, ".flv"@);
    lemma_search_meaning(l, ".flv?"@);
    lemma_search_meaning(l, "http://"@);
    lemma_search_meaning(l, "https://"@);
    if prefixed(l, "rtsp://"@) {
        assert(!prefixed(l, "rtmp://"@)) by {
            if prefixed(l, "rtmp://"@) {
                assert(l.subrange(0, 7)[2] == "rtmp://"@[2]);
            }
        }
        assert(!prefixed(l, "rtmps://"@)) by {
            if prefixed(l, "rtmps://"@) {
                assert(l.subrange(0, 8)[2] == "rtmps://"@[2]);
            }
        }
    }
    if prefixed(l, "rtsps://"@) {
        assert(!prefixed(l, "rtmp://"@)) by {
            if prefixed(l, "rtmp://"@) {
                assert(l.subrange(0, 7)[2] == "rtmp://"@[2]);
            }
        }
        assert(!prefixed(l, "rtmps://"@)) by {
            if prefixed(l, "rtmps://"@) {
                assert(l.subrange(0, 8)[2] == "rtmps://"@[2]);
            }
        }
    }
}

/// The protocol of an already lowercased stream address.
pub fn detect_protocol_lowered(lower: &str) -> (r: &'static str)
    ensures
        r@ == protocol_of_lowered(lower@),
        prefixed(lower@, "rtmp://"@) || prefixed(lower@, "rtmps://"@) ==> r@ == "rtmp"@,
        prefixed(lower@, "rtsp://"@) || prefixed(lower@, "rtsps://"@) ==> r@ == "rtsp"@,
{
    proof {
        lemma_protocol_by_text(lower@);
    }
    let l = chars_of(lower);
    if starts_with_str(&l, "rtmp://") || starts_with_str(&l, "rtmps://") {
        "rtmp"
    } else if starts_with_str(&l, "rtsp://") || starts_with_str(&l, "rtsps://") {
        "rtsp"
    } else if ends_with_str(&l, ".m3u8") || contains_str(&l, ".m3u8?") {
        "hls"
    } else if ends_with_str(&l, ".flv") || contains_str(&l, ".flv?") {
        "flv"
    } else if starts_with_str(&l, "http://") || starts_with_str(&l, "https://") {
        "flv"
    } else {
        "unknown"
    }
}

/// The protocol of a stream address: `rtmp`, `rtsp`, `hls`, `flv` or `unknown`.
pub fn detect_protocol(url: &str) -> (r: &'static str)
    ensures
        r@ == protocol_of_lowered(lowercase(url@)),
        prefixed(lowercase(url@), "rtmp://"@) || prefixed(lowercase(url@), "rtmps://"@) ==> r@ == "rtmp"@,
        prefixed(lowercase(url@), "rtsp://"@) || prefixed(lowercase(url@), "rtsps://"@) ==> r@ == "rtsp"@,
{
    proof {
        lemma_protocol_by_text(lowercase(url@));
    }
    let l = to_lowercase_chars(url);
    let ls = string_of(&l);
    detect_protocol_lowered(ls.as_str())
}

/// Equality of two texts.
pub fn str_eq(a: &str, b: &str) -> (r: bool)
    ensures
        r == (a@ == b@),
{
    let x = chars_of(a);
    let y = chars_of(b);
    if x.len() != y.len() {
        return false;
    }
    let mut i: usize = 0;
    while i < x.len()
        invariant
            i <= x.len(),
            x.len() == y.len(),
            x@ == a@,
            y@ == b@,
            forall|k: int| 0 <= k < i ==> x@[k] == y@[k],
        decreases x.len() - i,
    {
        if x[i] != y[i] {
            assert(x@[i as int] != y@[i as int]);
            return false;
        }
        i += 1;
    }
    assert(x@ =~= y@);
    true
}

/// The media-server path that pulls streams of a protocol.
pub open spec fn pull_path(protocol: Seq<char>) -> Option<Seq<char>> {
    if protocol == "rtmp"@ {
        Some("/api/pull/rtmp"@)
    } else if protocol == "rtsp"@ {
        Some("/api/pull/rtsp"@)
    } else if protocol == "hls"@ {
        Some("/api/pull/hls"@)
    } else if protocol == "flv"@ {
        Some("/api/pull/flv"@)
    } else {
        None
    }
}

pub fn media_server_pull_path(protocol: &str) -> (r: Option<&'static str>)
    ensures
        r.deep_view() == pull_path(protocol@),
{
    if str_eq(protocol, "rtmp") {
        Some("/api/pull/rtmp")
    } else if str_eq(protocol, "rtsp") {
        Some("/api/pull/rtsp")
    } else if str_eq(protocol, "hls") {
        Some("/api/pull/hls")
    } else if str_eq(protocol, "flv") {
        Some("/api/pull/flv")
    } else {
        None
    }
}

/// Every protocol that [`detect_protocol`] can report, other than `unknown`,
/// has a pull path on the media server, and `unknown` has none.
pub proof fn lemma_detected_protocols_have_paths(l: Seq<char>)
    ensures
        pull_path(protocol_of_lowered(l)) is Some <==> protocol_of_lowered(l) != "unknown"@,
{
    reveal_strlit("rtmp");
    reveal_strlit("rtsp");
    reveal_strlit("hls");
    reveal_strlit("flv");
    reveal_strlit("unknown");
    assert("flv"@ != "hls"@) by {
        assert("flv"@[0] != "hls"@[0]);
    }
    assert("unknown"@ != "rtmp"@ && "unknown"@ != "rtsp"@ && "unknown"@ != "hls"@ && "unknown"@ != "flv"@) by {
        assert("unknown"@.len() == 7);
    }
}

// ---------------------------------------------------------------------------
// Path segments
// ---------------------------------------------------------------------------

/// The bytes that RFC 3986 leaves unreserved: letters, digits, `-_.~`.
pub open spec fn is_unreserved(b: u8) -> bool {
    (65 <= b <= 90) || (97 <= b <= 122) || (48 <= b <= 57) || b == 45 || b == 95 || b == 46 || b
        == 126
}

/// An upper-case hexadecimal digit.
pub open spec fn hex_upper(n: int) -> char {
    if n < 10 {
        (48 + n) as char
    } else {
        (55 + n) as char
    }
}

/// One byte of a path segment: itself when unreserved, else `%XX`.
pub open spec fn encode_byte(b: u8) -> Seq<char> {
    if is_unreserved(b) {
        seq![b as char]
    } else {
        seq!['%', hex_upper(b as int / 16), hex_upper(b as int % 16)]
    }
}

/// The percent-encoding of a byte sequence.
pub open spec fn percent_encode(bytes: Seq<u8>) -> Seq<char>
    decreases bytes.len(),
{
    if bytes.len() == 0 {
        seq![]
    } else {
        encode_byte(bytes[0]) + percent_encode(bytes.drop_first())
    }
}

/// The value of a hexadecimal digit (upper case).
pub open spec fn hex_value(c: char) -> int {
    if '0' <= c && c <= '9' {
        c as int - 48
    } else {
        c as int - 55
    }
}

/// Percent-decoding: `%XY` is the byte `XY`, any other character its own code.
pub open spec fn percent_decode(s: Seq<char>) -> Seq<u8>
    decreases s.len(),
{
    if s.len() == 0 {
        seq![]
    } else if s[0] == '%' && s.len() >= 3 {
        seq![(hex_value(s[1]) * 16 + hex_value(s[2])) as u8] + percent_decode(s.subrange(3, s.len() as int))
    } else {
        seq![s[0] as u8] + percent_decode(s.drop_first())
    }
}

proof fn lemma_decode_encoded_byte(b: u8, rest: Seq<char>)
    ensures
        percent_decode(encode_byte(b) + rest) == seq![b] + percent_decode(rest),
{
    let e = encode_byte(b);
    let s = e + rest;
    if is_unreserved(b) {
        assert(s[0] == b as char);
        assert((b as char) as u8 == b);
        assert(s.drop_first() =~= rest);
    } else {
        let hi = b as int / 16;
        let lo = b as int % 16;
        assert(0 <= hi < 16 && 0 <= lo < 16);
        assert(hex_value(hex_upper(hi)) == hi);
        assert(hex_value(hex_upper(lo)) == lo);
        assert(s.subrange(3, s.len() as int) =~= rest);
        assert(hi * 16 + lo == b as int);
    }
}

/// Decoding the encoding of a byte sequence gives the sequence back: the
/// encoding loses nothing and adds nothing.
pub proof fn lemma_percent_roundtrip(bytes: Seq<u8>)
    ensures
        percent_decode(percent_encode(bytes)) == bytes,
    decreases bytes.len(),
{
    if bytes.len() > 0 {
        lemma_percent_roundtrip(bytes.drop_first());
        lemma_decode_encoded_byte(bytes[0], percent_encode(bytes.drop_first()));
        assert(seq![bytes[0]] + bytes.drop_first() =~= bytes);
    }
}

/// Encoded segments hold only unreserved characters and `%` escapes.
pub proof fn lemma_percent_encode_alphabet(bytes: Seq<u8>)
    ensures
        forall|i: int|
            0 <= i < percent_encode(bytes).len() ==> {
                let c = #[trigger] percent_encode(bytes)[i];
                c == '%' || ('0' <= c && c <= '9') || ('A' <= c && c <= 'Z') || ('a' <= c && c
                    <= 'z') || c == '-' || c == '_' || c == '.' || c == '~'
            },
    decreases bytes.len(),
{
    if bytes.len() > 0 {
        lemma_percent_encode_alphabet(bytes.drop_first());
        let e = encode_byte(bytes[0]);
        let t = percent_encode(bytes.drop_first());
        assert(percent_encode(bytes) == e + t);
        assert forall|i: int| 0 <= i < percent_encode(bytes).len() implies {
            let c = #[trigger] percent_encode(bytes)[i];
            c == '%' || ('0' <= c && c <= '9') || ('A' <= c && c <= 'Z') || ('a' <= c && c <= 'z')
                || c == '-' || c == '_' || c == '.' || c == '~'
        } by {
            if i >= e.len() {
                assert(percent_encode(bytes)[i] == t[i - e.len()]);
            } else {
                let b = bytes[0];
                if is_unreserved(b) {
                    assert(e[0] == b as char);
                    assert((65 <= b <= 90) ==> ('A' <= (b as char) && (b as char) <= 'Z'));
                }
            }
        }
    }
}

fn hex_digit(n: u8) -> (r: char)
    requires
        n < 16,
    ensures
        r == hex_upper(n as int),
{
    if n < 10 {
        (48u8 + n) as char
    } else {
        (55u8 + n) as char
    }
}

/// Percent-encodes a text's UTF-8 bytes for use as one URL path segment.
pub fn url_encode_path_segment(input: &str) -> (r: String)
    ensures
        r@ == percent_encode(input.spec_bytes()),
{
    let bytes = input.as_bytes_vec();
    let mut out: Vec<char> = Vec::new();
    assert(bytes@.subrange(0, bytes.len() as int) =~= bytes@);
    let mut i: usize = 0;
    while i < bytes.len()
        invariant
            i <= bytes.len(),
            out@ + percent_encode(bytes@.subrange(i as int, bytes.len() as int)) == percent_encode(
                bytes@,
            ),
        decreases bytes.len() - i,
    {
        let ghost rest = bytes@.subrange(i as int, bytes.len() as int);
        assert(rest.drop_first() =~= bytes@.subrange(i + 1, bytes.len() as int));
        let b = bytes[i];
        let ghost before = out@;
        if (65 <= b && b <= 90) || (97 <= b && b <= 122) || (48 <= b && b <= 57) || b == 45 || b
            == 95 || b == 46 || b == 126 {
            out.push(b as char);
        } else {
            out.push('%');
            out.push(hex_digit(b / 16));
            out.push(hex_digit(b % 16));
        }
        assert(out@ =~= before + encode_byte(b));
        i += 1;
    }
    assert(bytes@.subrange(bytes.len() as int, bytes.len() as int) =~= Seq::<u8>::empty());
    assert(bytes@.subrange(0, bytes.len() as int) =~= bytes@);
    assert(out@ + percent_encode(Seq::<u8>::empty()) =~= out@);
    string_of(&out)
}

// ---------------------------------------------------------------------------
// Endpoints
// ---------------------------------------------------------------------------

/// `str::trim_end_matches('/')`.
pub open spec fn strip_trailing_slashes(s: Seq<char>) -> Seq<char>
    decreases s.len(),
{
    if s.len() > 0 && s.last() == '/' {
        strip_trailing_slashes(s.drop_last())
    } else {
        s
    }
}

fn strip_trailing_slashes_exec(s: &str) -> (r: Vec<char>)
    ensures
        r@ == strip_trailing_slashes(s@),
{
    let cs = chars_of(s);
    let mut end = cs.len();
    assert(cs@.subrange(0, end as int) =~= s@);
    while end > 0 && cs[end - 1] == '/'
        invariant
            end <= cs.len(),
            strip_trailing_slashes(s@) == strip_trailing_slashes(cs@.subrange(0, end as int)),
            cs@ == s@,
        decreases end,
    {
        assert(cs@.subrange(0, end as int).drop_last() =~= cs@.subrange(0, end - 1));
        end -= 1;
    }
    sub_vec(&cs, 0, end)
}

/// The address of a media-server API path.
pub open spec fn endpoint(base: Seq<char>, path: Seq<char>) -> Seq<char> {
    strip_trailing_slashes(base) + path
}

/// Where pull requests for `protocol` go, or the refusal of an unsupported
/// protocol.
pub open spec fn pull_target_spec(base: Seq<char>, protocol: Seq<char>) -> Result<Seq<char>, Seq<char>> {
    match pull_path(protocol) {
        Some(p) => Ok(endpoint(base, p)),
        None => Err("不支持的协议: "@ + protocol),
    }
}

pub fn pull_target(media_server_url: &str, protocol: &str) -> (r: Result<String, String>)
    ensures
        match r {
            Ok(u) => pull_target_spec(media_server_url@, protocol@) == Ok::<Seq<char>, Seq<char>>(u@),
            Err(m) => pull_target_spec(media_server_url@, protocol@) == Err::<Seq<char>, Seq<char>>(m@),
        },
{
    match media_server_pull_path(protocol) {
        Some(path) => {
            let mut u = strip_trailing_slashes_exec(media_server_url);
            append_str(&mut u, path);
            Ok(string_of(&u))
        },
        None => {
            let mut m = chars_of("不支持的协议: ");
            append_str(&mut m, protocol);
            Err(string_of(&m))
        },
    }
}

fn endpoint_with_segment(base: &str, prefix: &str, segment: &str, suffix: &str) -> (r: String)
    ensures
        r@ == endpoint(base@, prefix@ + percent_encode(segment.spec_bytes()) + suffix@),
{
    let mut u = strip_trailing_slashes_exec(base);
    append_str(&mut u, prefix);
    let enc = url_encode_path_segment(segment);
    append_str(&mut u, enc.as_str());
    append_str(&mut u, suffix);
    let r = string_of(&u);
    assert(r@ =~= endpoint(base@, prefix@ + percent_encode(segment.spec_bytes()) + suffix@));
    r
}

/// `DELETE` address of a stream.
pub fn stream_endpoint(media_server_url: &str, stream_id: &str) -> (r: String)
    ensures
        r@ == endpoint(media_server_url@, "/api/stream/"@ + percent_encode(stream_id.spec_bytes())),
{
    let r = endpoint_with_segment(media_server_url, "/api/stream/", stream_id, "");
    proof {
        reveal_strlit("");
        assert("/api/stream/"@ + percent_encode(stream_id.spec_bytes()) + ""@ =~= "/api/stream/"@ + percent_encode(stream_id.spec_bytes()));
    }
    r
}

/// Metrics address of a stream.
pub fn metrics_endpoint(media_server_url: &str, stream_id: &str) -> (r: String)
    ensures
        r@ == endpoint(media_server_url@, "/api/metrics/"@ + percent_encode(stream_id.spec_bytes())),
{
    let r = endpoint_with_segment(media_server_url, "/api/metrics/", stream_id, "");
    proof {
        reveal_strlit("");
        assert("/api/metrics/"@ + percent_encode(stream_id.spec_bytes()) + ""@ =~= "/api/metrics/"@ + percent_encode(stream_id.spec_bytes()));
    }
    r
}

/// Address that takes snapshot requests.
pub fn snapshot_endpoint(media_server_url: &str) -> (r: String)
    ensures
        r@ == endpoint(media_server_url@, "/api/snapshot"@),
{
    let mut u = strip_trailing_slashes_exec(media_server_url);
    append_str(&mut u, "/api/snapshot");
    string_of(&u)
}

/// Status address of a snapshot.
pub fn snapshot_entry_endpoint(media_server_url: &str, snapshot_id: &str) -> (r: String)
    ensures
        r@ == endpoint(media_server_url@, "/api/snapshots/"@ + percent_encode(snapshot_id.spec_bytes())),
{
    let r = endpoint_with_segment(media_server_url, "/api/snapshots/", snapshot_id, "");
    proof {
        reveal_strlit("");
        assert("/api/snapshots/"@ + percent_encode(snapshot_id.spec_bytes()) + ""@ =~= "/api/snapshots/"@ + percent_encode(snapshot_id.spec_bytes()));
    }
    r
}

/// Image address of a snapshot.
pub fn snapshot_image_endpoint(media_server_url: &str, snapshot_id: &str) -> (r: String)
    ensures
        r@ == endpoint(media_server_url@, "/api/snapshots/"@ + percent_encode(snapshot_id.spec_bytes()) + ".jpg"@),
{
    endpoint_with_segment(media_server_url, "/api/snapshots/", snapshot_id, ".jpg")
}

// ---------------------------------------------------------------------------
// Reading the media server's answers
// ---------------------------------------------------------------------------

/// Deleting a stream succeeded: a success status, or 404 (already gone).
pub fn delete_succeeded(status: u16) -> (r: bool)
    ensures
        r == ((200 <= status <= 299) || status == 404),
{
    (200 <= status && status <= 299) || status == 404
}

/// A stream's metrics show a keyframe has arrived: either counter (0 when
/// absent) is positive.
pub fn stream_has_keyframe(latest_idr_seq: u64, latest_seq: u64) -> (r: bool)
    ensures
        r == (latest_idr_seq > 0 || latest_seq > 0),
{
    latest_idr_seq > 0 || latest_seq > 0
}

/// The answer of the media server for a snapshot image: on a success
/// status the image bytes and their content type (`image/jpeg` when the
/// server names none); otherwise the status and the body read as text.
pub fn snapshot_image_answer(status: u16, content_type: Option<&str>, body: Vec<u8>) -> (r: Result<
    (Vec<u8>, String),
    (u16, String),
>)
    ensures
        (200 <= status <= 299) ==> (r matches Ok((b, t)) && b@ == body@ && t@ == (match content_type {
            Some(c) => c@,
            None => "image/jpeg"@,
        })),
        !(200 <= status <= 299) ==> (r matches Err((st, m)) && st == status && m@ == utf8_lossy(body@)),
{
    if 200 <= status && status <= 299 {
        let t = match content_type {
            Some(c) => c.to_string(),
            None => "image/jpeg".to_string(),
        };
        Ok((body, t))
    } else {
        let text = decode_utf8_lossy(body.as_slice());
        Err((status, string_of(&text)))
    }
}

/// The state of a snapshot being polled.
pub enum SnapshotPoll {
    Completed,
    Failed(String),
    Pending,
}

/// Reads a snapshot's `status` (and `error`): `completed`, `error`/`failed`
/// (with its error text, or a default message), anything else still pending.
pub fn snapshot_poll(status: Option<&str>, error: Option<&str>) -> (r: SnapshotPoll)
    ensures
        ({
            let st = match status {
                Some(s) => s@,
                None => Seq::<char>::empty(),
            };
            if st == "completed"@ {
                r is Completed
            } else if st == "error"@ || st == "failed"@ {
                r matches SnapshotPoll::Failed(m) && m@ == (match error {
                    Some(e) => e@,
                    None => "截图失败"@,
                })
            } else {
                r is Pending
            }
        }),
{
    let st: &str = match status {
        Some(s) => s,
        None => "",
    };
    proof {
        reveal_strlit("");
        assert(""@ =~= Seq::<char>::empty());
    }
    if str_eq(st, "completed") {
        SnapshotPoll::Completed
    } else if str_eq(st, "error") || str_eq(st, "failed") {
        let m = match error {
            Some(e) => e.to_string(),
            None => "截图失败".to_string(),
        };
        SnapshotPoll::Failed(m)
    } else {
        SnapshotPoll::Pending
    }
}

} // verus!
