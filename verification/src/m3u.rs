//! M3U/M3U8 playlist reading: `#EXTINF` attributes and names, URL
//! resolution, simple-playlist entries, master-playlist sub-streams, and the
//! decisions of a scrape.
use vstd::prelude::*;

use crate::models::{clone_opt_string, raw_items_view, RawPlayItem, RawPlayItemView};
use crate::num::{
    all_digits, decimal, format_u64, is_digit, lemma_decimal_digits, lemma_parse_format_signed,
    parse_i32, parse_signed,
};
use crate::text::{
    append_vec, chars_of, concat_vec, contains, contains_str, ends_with, find, find_from,
    find_str, find_vec_from, lemma_find_from, lemma_next_char, lines, lines_exec, matches_at,
    next_char_exec, next_char_from, rfind_char, rfind_char_exec, starts_with, starts_with_str,
    string_of, sub_vec, trim, trim_chars, views_of, opt_chars_view, decode_utf8_lossy, utf8_lossy,
    append_str, lemma_search_meaning, lemma_trim_idempotent, prefixed,
};

verus! {

#[verifier::external_type_specification]
#[verifier::external_body]
pub struct ExClient(reqwest::Client);

// ---------------------------------------------------------------------------
// #EXTINF attributes and names
// ---------------------------------------------------------------------------

/// The index of the first `' '` or `','` at or after `i` (or `s.len()`).
pub open spec fn next_space_or_comma(s: Seq<char>, i: int) -> int
    decreases s.len() - i,
{
    if i >= s.len() {
        s.len() as int
    } else if s[i] == ' ' || s[i] == ',' {
        i
    } else {
        next_space_or_comma(s, i + 1)
    }
}

/// The scan for a space or comma stays within the text.
pub proof fn lemma_next_space_or_comma(s: Seq<char>, i: int)
    requires
        0 <= i <= s.len(),
    ensures
        i <= next_space_or_comma(s, i) <= s.len(),
    decreases s.len() - i,
{
    if i < s.len() && !(s[i] == ' ' || s[i] == ',') {
        lemma_next_space_or_comma(s, i + 1);
    }
}

/// Value of attribute `attr` on an `#EXTINF` line: first the quoted form
/// `attr="value"` (up to the closing quote), otherwise the bare form
/// `attr=value` (up to the next space or comma; empty or a lone `"` gives none).
pub open spec fn extinf_attr(line: Seq<char>, attr: Seq<char>) -> Option<Seq<char>> {
    let quoted = attr + seq!['=', '"'];
    let bare = attr + seq!['='];
    let q = match find(line, quoted) {
        Some(i) => {
            let rest = line.subrange(i + quoted.len(), line.len() as int);
            let e = next_char_from(rest, '"', 0);
            if e < rest.len() {
                Some(rest.subrange(0, e))
            } else {
                None
            }
        },
        None => None,
    };
    if q is Some {
        q
    } else {
        match find(line, bare) {
            Some(i) => {
                let rest = line.subrange(i + bare.len(), line.len() as int);
                let v = rest.subrange(0, next_space_or_comma(rest, 0));
                if v.len() > 0 && v != seq!['"'] {
                    Some(v)
                } else {
                    None
                }
            },
            None => None,
        }
    }
}

pub fn extinf_attr_exec(line: &Vec<char>, attr: &Vec<char>) -> (r: Option<Vec<char>>)
    ensures
        opt_chars_view(r) == extinf_attr(line@, attr@),
{
    let mut quoted = attr.clone();
    quoted.push('=');
    quoted.push('"');
    assert(quoted@ =~= attr@ + seq!['=', '"']);
    if let Some(i) = find_vec_from(line, &quoted, 0) {
        proof {
            lemma_find_from(line@, quoted@, 0);
            assert(matches_at(line@, quoted@, i as int));
        }
        let qlen = quoted.len();
        let n = line.len();
        assert(i + qlen <= n);
        let start = i + qlen;
        let rest = sub_vec(line, start, line.len());
        let e = next_char_exec(&rest, '"', 0);
        if e < rest.len() {
            let v = sub_vec(&rest, 0, e);
            return Some(v);
        }
    }
    let mut bare = attr.clone();
    bare.push('=');
    assert(bare@ =~= attr@ + seq!['=']);
    if let Some(i) = find_vec_from(line, &bare, 0) {
        proof {
            lemma_find_from(line@, bare@, 0);
            assert(matches_at(line@, bare@, i as int));
        }
        let blen = bare.len();
        let n = line.len();
        assert(i + blen <= n);
        let start = i + blen;
        let rest = sub_vec(line, start, line.len());
        let mut end: usize = 0;
        while end < rest.len() && rest[end] != ' ' && rest[end] != ','
            invariant
                end <= rest.len(),
                next_space_or_comma(rest@, 0) == next_space_or_comma(rest@, end as int),
            decreases rest.len() - end,
        {
            end += 1;
        }
        let v = sub_vec(&rest, 0, end);
        let lone_quote = v.len() == 1 && v[0] == '"';
        assert(lone_quote <==> v@ == seq!['"']) by {
            if v@ == seq!['"'] {
                assert(v@[0] == '"');
            }
            if lone_quote {
                assert(v@ =~= seq!['"']);
            }
        }
        if v.len() > 0 && !lone_quote {
            return Some(v);
        }
    }
    None
}

/// The channel name of an `#EXTINF` line: the trimmed text after the last
/// comma when that is not empty, else the `tvg-name` attribute, else a
/// placeholder name.
pub open spec fn extinf_name(line: Seq<char>) -> Seq<char> {
    let after_comma = match rfind_char(line, ',') {
        Some(c) => {
            let d = trim(line.subrange(c + 1, line.len() as int));
            if d.len() > 0 {
                Some(d)
            } else {
                None
            }
        },
        None => None,
    };
    match after_comma {
        Some(d) => d,
        None => match extinf_attr(line, "tvg-name"@) {
            Some(v) => v,
            None => "未知频道"@,
        },
    }
}

pub fn extinf_name_exec(line: &Vec<char>) -> (r: Vec<char>)
    ensures
        r@ == extinf_name(line@),
{
    if let Some(c) = rfind_char_exec(line, ',') {
        let tail = sub_vec(line, c + 1, line.len());
        let d = trim_chars(&tail);
        if d.len() > 0 {
            return d;
        }
    }
    let attr = chars_of("tvg-name");
    match extinf_attr_exec(line, &attr) {
        Some(v) => v,
        None => chars_of("未知频道"),
    }
}

// ---------------------------------------------------------------------------
// URLs
// ---------------------------------------------------------------------------

/// An HLS stream address: `http://` or `https://`.
pub open spec fn is_hls_url(u: Seq<char>) -> bool {
    starts_with(u, "http://"@) || starts_with(u, "https://"@)
}

/// An address is HLS exactly when it begins with `http://` or `https://`.
pub proof fn lemma_hls_means_web(u: Seq<char>)
    ensures
        is_hls_url(u) <==> (prefixed(u, "http://"@) || prefixed(u, "https://"@)),
{
    lemma_search_meaning(u, "http://"@);
    lemma_search_meaning(u, "https://"@);
}

pub fn is_hls_exec(u: &Vec<char>) -> (r: bool)
    ensures
        r == is_hls_url(u@),
        r == (prefixed(u@, "http://"@) || prefixed(u@, "https://"@)),
{
    proof {
        lemma_hls_means_web(u@);
    }
    starts_with_str(u, "http://") || starts_with_str(u, "https://")
}

/// What the `url` crate makes of `relative` against `base`: the text of
/// `Url::parse(base)` joined with `relative`, or `None` when either step fails.
pub uninterp spec fn url_crate_join(base: Seq<char>, relative: Seq<char>) -> Option<Seq<char>>;

/// Calls `url::Url::parse` on `base`, then `Url::join` with `relative`, and
/// renders the result with `to_string`.  The contract only names the result
/// (`url_crate_join` of the two texts); what the WHATWG URL rules produce is
/// not restated here.
#[verifier::external_body]
fn join_with_url_crate(base: &str, relative: &str) -> (r: Option<String>)
    ensures
        r.deep_view() == url_crate_join(base@, relative@),
{
    match url::Url::parse(base) {
        Ok(b) => match b.join(relative) {
            Ok(u) => Some(u.to_string()),
            Err(_) => None,
        },
        Err(_) => None,
    }
}

/// Hand-made resolution used when the `url` crate gives no answer:
/// a root-relative path goes after the scheme and host of `base`; any other
/// path goes after the directory of `base`.
pub open spec fn resolve_fallback(base: Seq<char>, rel: Seq<char>) -> Seq<char> {
    if rel.len() > 0 && rel[0] == '/' {
        match find(base, "://"@) {
            Some(de) => {
                let ds = de + 3;
                let ps = next_char_from(base, '/', ds);
                if ps < base.len() {
                    base.subrange(0, ps) + rel
                } else {
                    base + rel
                }
            },
            None => rel,
        }
    } else {
        match rfind_char(base, '/') {
            Some(ls) => base.subrange(0, ls) + seq!['/'] + rel,
            None => base + seq!['/'] + rel,
        }
    }
}

/// A playlist line made absolute against `base`, given what the `url` crate
/// answered (`joined`) for the trimmed line.
pub open spec fn resolve_with(base: Seq<char>, relative: Seq<char>, joined: Option<Seq<char>>) -> Seq<
    char,
> {
    let rel = trim(relative);
    if is_hls_url(rel) {
        rel
    } else {
        match joined {
            Some(j) => j,
            None => resolve_fallback(base, rel),
        }
    }
}

/// A playlist line made absolute against `base`.
pub open spec fn resolve_url_spec(base: Seq<char>, relative: Seq<char>) -> Seq<char> {
    resolve_with(base, relative, url_crate_join(base, trim(relative)))
}

/// The resolution of `relative` against `base` when the `url` crate's
/// answer for the trimmed line is `joined`.
pub fn resolve_url_with(base: &str, relative: &str, joined: Option<String>) -> (r: String)
    ensures
        r@ == resolve_with(base@, relative@, joined.deep_view()),
{
    let b = chars_of(base);
    let rc = chars_of(relative);
    let rel = trim_chars(&rc);
    if is_hls_exec(&rel) {
        return string_of(&rel);
    }
    match joined {
        Some(j) => j,
        None => {
            let v = fallback_exec(&b, &rel);
            string_of(&v)
        },
    }
}

fn fallback_exec(base: &Vec<char>, rel: &Vec<char>) -> (r: Vec<char>)
    ensures
        r@ == resolve_fallback(base@, rel@),
{
    if rel.len() > 0 && rel[0] == '/' {
        match find_str(base, "://") {
            Some(de) => {
                proof {
                    reveal_strlit("://");
                    lemma_find_from(base@, "://"@, 0);
                    assert(matches_at(base@, "://"@, de as int));
                }
                let n = base.len();
                assert(de + 3 <= n);
                let ds = de + 3;
                let ps = next_char_exec(base, '/', ds);
                if ps < base.len() {
                    let head = sub_vec(base, 0, ps);
                    concat_vec(&head, rel)
                } else {
                    concat_vec(base, rel)
                }
            },
            None => rel.clone(),
        }
    } else {
        let mut out: Vec<char> = match rfind_char_exec(base, '/') {
            Some(ls) => sub_vec(base, 0, ls),
            None => base.clone(),
        };
        out.push('/');
        append_vec(&mut out, rel);
        out
    }
}

/// `relative` made absolute against `base`, asking the `url` crate first.
pub fn resolve_url(base: &str, relative: &str) -> (r: String)
    ensures
        r@ == resolve_url_spec(base@, relative@),
{
    let rc = chars_of(relative);
    let rel = trim_chars(&rc);
    if is_hls_exec(&rel) {
        return resolve_url_with(base, relative, None);
    }
    let rel_s = string_of(&rel);
    let joined = join_with_url_crate(base, rel_s.as_str());
    resolve_url_with(base, relative, joined)
}

// ---------------------------------------------------------------------------
// The fetcher and simple playlists
// ---------------------------------------------------------------------------

/// Reader of one M3U/M3U8 playlist source.  The HTTP client is carried for
/// the caller that performs the downloads; the library itself never reads it.
pub struct M3uPlaylistFetcher {
    pub source_name: String,
    pub playlist_url: String,
    pub category: Option<String>,
    pub client: reqwest::Client,
}

/// Where a playlist comes from: source name, playlist URL, default category.
pub struct PlaylistOrigin {
    pub name: Seq<char>,
    pub url: Seq<char>,
    pub category: Option<Seq<char>>,
}

impl View for M3uPlaylistFetcher {
    type V = PlaylistOrigin;

    open spec fn view(&self) -> PlaylistOrigin {
        PlaylistOrigin {
            name: self.source_name@,
            url: self.playlist_url@,
            category: self.category.deep_view(),
        }
    }
}

pub open spec fn opt_or(a: Option<Seq<char>>, b: Option<Seq<char>>) -> Option<Seq<char>> {
    if a is Some {
        a
    } else {
        b
    }
}

/// A line that starts with `#`.
pub open spec fn starts_hash(l: Seq<char>) -> bool {
    l.len() > 0 && l[0] == '#'
}

/// A directive line other than `#EXTINF`, passed over while looking for the
/// URL that belongs to an `#EXTINF` entry.
pub open spec fn passed_over(l: Seq<char>) -> bool {
    starts_hash(l) && !starts_with(l, "#EXTINF"@)
}

/// A line that holds a stream address: not empty and not a directive.
pub open spec fn is_url_line(l: Seq<char>) -> bool {
    l.len() > 0 && !starts_hash(l)
}

/// The first line at or after `k` whose trimmed text is not passed over.
pub open spec fn url_scan(ls: Seq<Seq<char>>, k: int) -> int
    decreases ls.len() - k,
{
    if k >= ls.len() {
        ls.len() as int
    } else if passed_over(trim(ls[k])) {
        url_scan(ls, k + 1)
    } else {
        k
    }
}

/// The scan for the URL line of an entry stays within the lines.
pub proof fn lemma_url_scan(ls: Seq<Seq<char>>, k: int)
    requires
        k <= ls.len(),
    ensures
        k <= url_scan(ls, k) <= ls.len(),
    decreases ls.len() - k,
{
    if k < ls.len() && passed_over(trim(ls[k])) {
        lemma_url_scan(ls, k + 1);
    }
}

/// The entry that an `#EXTINF` line and its URL line give: kept only when
/// the resolved address is an HLS (`http`/`https`) one.
pub open spec fn extinf_entry(o: PlaylistOrigin, line: Seq<char>, url_line: Seq<char>) -> Seq<
    RawPlayItemView,
> {
    let u = resolve_url_spec(o.url, url_line);
    if is_hls_url(u) {
        seq![
            RawPlayItemView {
                channel_name: extinf_name(line),
                url: u,
                source: o.name,
                category: opt_or(extinf_attr(line, "group-title"@), o.category),
                resolution: extinf_attr(line, "tvg-resolution"@),
            },
        ]
    } else {
        seq![]
    }
}

/// Entries of a simple playlist from line `i` on.  An `#EXTINF` line takes
/// the first following line that is not passed over; when that line is a
/// URL line it yields the entry, and reading resumes after it.
pub open spec fn simple_items_from(o: PlaylistOrigin, ls: Seq<Seq<char>>, i: int) -> Seq<
    RawPlayItemView,
>
    decreases ls.len() - i,
{
    if i < 0 || i >= ls.len() {
        seq![]
    } else {
        let line = trim(ls[i]);
        if starts_with(line, "#EXTINF"@) {
            let j = url_scan(ls, i + 1);
            proof {
                lemma_url_scan(ls, i + 1);
            }
            if j < ls.len() {
                let here = if is_url_line(trim(ls[j])) {
                    extinf_entry(o, line, trim(ls[j]))
                } else {
                    seq![]
                };
                here + simple_items_from(o, ls, j + 1)
            } else {
                seq![]
            }
        } else {
            simple_items_from(o, ls, i + 1)
        }
    }
}

/// All entries have HLS addresses and come from the source named `name`.
pub open spec fn all_hls_from(items: Seq<RawPlayItemView>, name: Seq<char>) -> bool {
    forall|k: int| 0 <= k < items.len() ==> is_hls_url(#[trigger] items[k].url) && items[k].source == name
}

proof fn lemma_simple_items_from_hls(o: PlaylistOrigin, ls: Seq<Seq<char>>, i: int)
    ensures
        all_hls_from(simple_items_from(o, ls, i), o.name),
    decreases ls.len() - i,
{
    let all = simple_items_from(o, ls, i);
    if 0 <= i < ls.len() {
        let line = trim(ls[i]);
        if starts_with(line, "#EXTINF"@) {
            let j = url_scan(ls, i + 1);
            lemma_url_scan(ls, i + 1);
            if j < ls.len() {
                lemma_simple_items_from_hls(o, ls, j + 1);
                let rest = simple_items_from(o, ls, j + 1);
                let here = if is_url_line(trim(ls[j])) {
                    extinf_entry(o, line, trim(ls[j]))
                } else {
                    seq![]
                };
                assert(all == here + rest);
                assert forall|k: int| 0 <= k < all.len() implies is_hls_url(#[trigger] all[k].url) && all[k].source == o.name by {
                    if k >= here.len() {
                        assert(all[k] == rest[k - here.len()]);
                        assert(is_hls_url(rest[k - here.len()].url));
                    } else {
                        assert(all[k] == here[k]);
                    }
                }
            } else {
                assert(all.len() == 0);
            }
        } else {
            lemma_simple_items_from_hls(o, ls, i + 1);
            assert(all == simple_items_from(o, ls, i + 1));
        }
    } else {
        assert(all.len() == 0);
    }
}

/// Every entry read from a simple playlist has an HLS (`http`/`https`)
/// address and carries the name of the source it was read from.
pub proof fn lemma_simple_playlist_entries_are_hls(o: PlaylistOrigin, content: Seq<char>)
    ensures
        all_hls_from(simple_playlist_items(o, content), o.name),
{
    lemma_simple_items_from_hls(o, lines(content), 0);
}

/// An address that is already absolute (`http://`/`https://` after
/// trimming) resolves to itself, trimmed, whatever the base.
pub proof fn lemma_absolute_url_kept(base: Seq<char>, relative: Seq<char>)
    requires
        is_hls_url(trim(relative)),
    ensures
        resolve_url_spec(base, relative) == trim(relative),
{
}

/// An `#EXTINF` entry whose URL line is an absolute `http://` or
/// `https://` address yields exactly one item: that address (trimmed), the
/// line's channel name, the source's name.
pub proof fn lemma_absolute_entry(o: PlaylistOrigin, line: Seq<char>, url_line: Seq<char>)
    requires
        prefixed(trim(url_line), "http://"@) || prefixed(trim(url_line), "https://"@),
    ensures
        extinf_entry(o, line, url_line).len() == 1,
        extinf_entry(o, line, url_line)[0].url == trim(url_line),
        extinf_entry(o, line, url_line)[0].channel_name == extinf_name(line),
        extinf_entry(o, line, url_line)[0].source == o.name,
{
    lemma_hls_means_web(trim(url_line));
    lemma_absolute_url_kept(o.url, url_line);
    lemma_hls_means_web(resolve_url_spec(o.url, url_line));
}

/// In a simple playlist, an `#EXTINF` line directly followed by an absolute
/// `http://`/`https://` address yields one item for that address, named by
/// the `#EXTINF` line; reading goes on after the address.
pub proof fn lemma_extinf_with_address(o: PlaylistOrigin, ls: Seq<Seq<char>>, i: int)
    requires
        0 <= i,
        i + 1 < ls.len(),
        prefixed(trim(ls[i]), "#EXTINF"@),
        prefixed(trim(ls[i + 1]), "http://"@) || prefixed(trim(ls[i + 1]), "https://"@),
    ensures
        simple_items_from(o, ls, i).len() == simple_items_from(o, ls, i + 2).len() + 1,
        simple_items_from(o, ls, i)[0].url == trim(ls[i + 1]),
        simple_items_from(o, ls, i)[0].channel_name == extinf_name(trim(ls[i])),
        simple_items_from(o, ls, i)[0].source == o.name,
        simple_items_from(o, ls, i).subrange(1, simple_items_from(o, ls, i).len() as int)
            == simple_items_from(o, ls, i + 2),
{
    let line = trim(ls[i]);
    let u = trim(ls[i + 1]);
    lemma_search_meaning(line, "#EXTINF"@);
    reveal_strlit("http://");
    reveal_strlit("https://");
    assert(u[0] == 'h') by {
        if prefixed(u, "http://"@) {
            assert(u.subrange(0, 7)[0] == "http://"@[0]);
        } else {
            assert(u.subrange(0, 8)[0] == "https://"@[0]);
        }
    }
    assert(!passed_over(u));
    assert(url_scan(ls, i + 1) == i + 1);
    assert(is_url_line(u));
    lemma_trim_idempotent(ls[i + 1]);
    lemma_absolute_entry(o, line, u);
    let here = extinf_entry(o, line, u);
    let rest = simple_items_from(o, ls, i + 2);
    assert(simple_items_from(o, ls, i) == here + rest);
    assert((here + rest).subrange(1, (here + rest).len() as int) =~= rest);
}

/// The entries of a simple (`#EXTINF`) playlist.
pub open spec fn simple_playlist_items(o: PlaylistOrigin, content: Seq<char>) -> Seq<RawPlayItemView> {
    simple_items_from(o, lines(content), 0)
}

fn passed_over_exec(l: &Vec<char>) -> (r: bool)
    ensures
        r == passed_over(trim(l@)),
{
    let t = trim_chars(l);
    t.len() > 0 && t[0] == '#' && !starts_with_str(&t, "#EXTINF")
}

fn url_scan_exec(ls: &Vec<Vec<char>>, k: usize) -> (r: usize)
    requires
        k <= ls.len(),
    ensures
        r == url_scan(views_of(ls@), k as int),
{
    let ghost v = views_of(ls@);
    let mut j = k;
    while j < ls.len() && passed_over_exec(&ls[j])
        invariant
            k <= j <= ls.len(),
            v == views_of(ls@),
            url_scan(v, k as int) == url_scan(v, j as int),
        decreases ls.len() - j,
    {
        assert(v[j as int] == ls@[j as int]@);
        j += 1;
    }
    if j < ls.len() {
        assert(v[j as int] == ls@[j as int]@);
    }
    j
}

fn opt_chars_to_string(o: Option<Vec<char>>) -> (r: Option<String>)
    ensures
        r.deep_view() == opt_chars_view(o),
{
    match o {
        Some(v) => Some(string_of(&v)),
        None => None,
    }
}

// ---------------------------------------------------------------------------
// Master playlists
// ---------------------------------------------------------------------------

/// `s.split(p).nth(1)`: the text between the first and the second
/// occurrence of `p` (or to the end), when `p` occurs at all.
pub open spec fn split_second(s: Seq<char>, p: Seq<char>) -> Option<Seq<char>> {
    match find(s, p) {
        None => None,
        Some(i) => {
            let rest = s.subrange(i + p.len(), s.len() as int);
            match find(rest, p) {
                Some(j) => Some(rest.subrange(0, j)),
                None => Some(rest),
            }
        },
    }
}

/// The width of an `#EXT-X-STREAM-INF` line's `RESOLUTION=WxH` attribute:
/// the text up to the next comma must hold exactly one `x`, and the part
/// before it must parse as an `i32`.
pub open spec fn stream_inf_width(line: Seq<char>) -> Option<int> {
    match split_second(line, "RESOLUTION="@) {
        None => None,
        Some(seg) => {
            let first = seg.subrange(0, next_char_from(seg, ',', 0));
            let x = next_char_from(first, 'x', 0);
            if x < first.len() && next_char_from(first, 'x', x + 1) == first.len() {
                parse_signed(first.subrange(0, x), i32::MIN as int, i32::MAX as int)
            } else {
                None
            }
        },
    }
}

/// Text of decimal digits and `x` holds no `R` and no `,`.
proof fn lemma_digits_plain(d: Seq<char>, k: int)
    requires
        all_digits(d),
        0 <= k < d.len(),
    ensures
        d[k] != 'R' && d[k] != ',' && d[k] != 'x',
{
    assert(is_digit(d[k]));
}

/// The width read from a line that carries `RESOLUTION=WxH,` (`W` and `H`
/// in decimal, `W` within `i32`, no earlier `RESOLUTION=` on the line) is
/// `W`, whatever comes before or after: sub-streams sort by their width.
pub proof fn lemma_width_key_reads_width(pre: Seq<char>, w: nat, h: nat, post: Seq<char>)
    requires
        w <= i32::MAX,
        forall|k: int|
            0 <= k < pre.len() ==> !(#[trigger] (pre + "RESOLUTION="@ + decimal(w) + seq!['x'] + decimal(h) + seq![','] + post).subrange(
                k,
                k + 11,
            ) == "RESOLUTION="@),
    ensures
        width_key(pre + "RESOLUTION="@ + decimal(w) + seq!['x'] + decimal(h) + seq![','] + post) == w,
{
    let p = "RESOLUTION="@;
    reveal_strlit("RESOLUTION=");
    let dw = decimal(w);
    let dh = decimal(h);
    lemma_decimal_digits(w);
    lemma_decimal_digits(h);
    let d = dw + seq!['x'] + dh;
    let rest = d + seq![','] + post;
    let line = pre + p + d + seq![','] + post;
    assert(line =~= pre + "RESOLUTION="@ + decimal(w) + seq!['x'] + decimal(h) + seq![','] + post);
    let n = pre.len() as int;
    // the first `RESOLUTION=` starts right after `pre`
    assert(line.subrange(n, n + 11) =~= p);
    assert(matches_at(line, p, n));
    lemma_find_from(line, p, 0);
    assert forall|j: int| 0 <= j < n implies !#[trigger] matches_at(line, p, j) by {
        assert(!(line.subrange(j, j + 11) == p));
    }
    assert(find(line, p) == Some(n));
    assert(line.subrange(n + 11, line.len() as int) =~= rest);
    // no `RESOLUTION=` before the comma of the rest
    assert forall|i: int| 0 <= i <= d.len() implies rest[i] != 'R' by {
        if i < dw.len() {
            lemma_digits_plain(dw, i);
            assert(rest[i] == dw[i]);
        } else if i == dw.len() {
            assert(rest[i] == 'x');
        } else if i < d.len() {
            lemma_digits_plain(dh, i - dw.len() - 1);
            assert(rest[i] == dh[i - dw.len() - 1]);
        } else {
            assert(rest[i] == ',');
        }
    }
    lemma_find_from(rest, p, 0);
    let seg = match find(rest, p) {
        Some(j) => rest.subrange(0, j),
        None => rest,
    };
    if let Some(j) = find(rest, p) {
        assert(matches_at(rest, p, j));
        assert(rest.subrange(j, j + 11)[0] == p[0]);
        assert(rest[j] == 'R');
        assert(j > d.len());
    }
    assert(split_second(line, p) == Some(seg));
    assert(seg.len() > d.len());
    assert forall|i: int| 0 <= i <= d.len() implies seg[i] == rest[i] by {}
    // the first comma of the segment ends the `WxH` text
    lemma_next_char(seg, ',', 0);
    let c = next_char_from(seg, ',', 0);
    assert(seg[d.len() as int] == ',');
    assert forall|i: int| 0 <= i < d.len() implies seg[i] != ',' by {
        if i < dw.len() {
            lemma_digits_plain(dw, i);
            assert(seg[i] == dw[i]);
        } else if i == dw.len() {
            assert(seg[i] == 'x');
        } else {
            lemma_digits_plain(dh, i - dw.len() - 1);
            assert(seg[i] == dh[i - dw.len() - 1]);
        }
    }
    assert(c == d.len());
    let first = seg.subrange(0, c);
    assert(first =~= d);
    // one `x`, right after the width's digits
    lemma_next_char(d, 'x', 0);
    let x = next_char_from(d, 'x', 0);
    assert(d[dw.len() as int] == 'x');
    assert forall|i: int| 0 <= i < dw.len() implies d[i] != 'x' by {
        lemma_digits_plain(dw, i);
        assert(d[i] == dw[i]);
    }
    assert(x == dw.len());
    lemma_next_char(d, 'x', x + 1);
    assert forall|i: int| x + 1 <= i < d.len() implies d[i] != 'x' by {
        lemma_digits_plain(dh, i - dw.len() - 1);
        assert(d[i] == dh[i - dw.len() - 1]);
    }
    assert(next_char_from(d, 'x', x + 1) == d.len());
    assert(d.subrange(0, x) =~= dw);
    lemma_parse_format_signed(w as int, i32::MIN as int, i32::MAX as int);
    assert(stream_inf_width(line) == Some(w as int));
}

/// The sort key of a sub-stream: its width, 0 when unknown.
pub open spec fn width_key(line: Seq<char>) -> int {
    match stream_inf_width(line) {
        Some(w) => w,
        None => 0,
    }
}

/// The first line at or after `k` whose trimmed text is a URL line.
pub open spec fn url_line_scan(ls: Seq<Seq<char>>, k: int) -> int
    decreases ls.len() - k,
{
    if k >= ls.len() {
        ls.len() as int
    } else if is_url_line(trim(ls[k])) {
        k
    } else {
        url_line_scan(ls, k + 1)
    }
}

/// The scan for the next URL line stays within the lines.
pub proof fn lemma_url_line_scan(ls: Seq<Seq<char>>, k: int)
    requires
        k <= ls.len(),
    ensures
        k <= url_line_scan(ls, k) <= ls.len(),
    decreases ls.len() - k,
{
    if k < ls.len() && !is_url_line(trim(ls[k])) {
        lemma_url_line_scan(ls, k + 1);
    }
}

/// Sub-streams of a master playlist from line `i` on, as (sort key, URL):
/// each `#EXT-X-STREAM-INF` line takes the next URL line after it.
pub open spec fn sub_streams_from(o: PlaylistOrigin, ls: Seq<Seq<char>>, i: int) -> Seq<
    (int, Seq<char>),
>
    decreases ls.len() - i,
{
    if i < 0 || i >= ls.len() {
        seq![]
    } else {
        let line = trim(ls[i]);
        if starts_with(line, "#EXT-X-STREAM-INF"@) {
            let j = url_line_scan(ls, i + 1);
            proof {
                lemma_url_line_scan(ls, i + 1);
            }
            if j < ls.len() {
                seq![(width_key(line), resolve_url_spec(o.url, trim(ls[j])))] + sub_streams_from(
                    o,
                    ls,
                    j + 1,
                )
            } else {
                seq![]
            }
        } else {
            sub_streams_from(o, ls, i + 1)
        }
    }
}

/// The sub-streams of a master playlist, in playlist order.
pub open spec fn sub_streams(o: PlaylistOrigin, content: Seq<char>) -> Seq<(int, Seq<char>)> {
    sub_streams_from(o, lines(content), 0)
}

pub open spec fn keys_of(e: Seq<(int, Seq<char>)>) -> Seq<int> {
    e.map_values(|x: (int, Seq<char>)| x.0)
}

/// `x` comes before `y` in a stable sort by `keys`.
pub open spec fn sorts_before(keys: Seq<int>, x: int, y: int) -> bool {
    keys[x] < keys[y] || (keys[x] == keys[y] && x < y)
}

/// `p` lists the indices of `keys` once each, in the order of a stable sort
/// by key: smaller keys first, equal keys in their original order.
pub open spec fn is_stable_order(keys: Seq<int>, p: Seq<int>) -> bool {
    &&& p.len() == keys.len()
    &&& forall|a: int| 0 <= a < p.len() ==> 0 <= #[trigger] p[a] < keys.len()
    &&& forall|x: int| 0 <= x < keys.len() ==> #[trigger] p.contains(x)
    &&& forall|a: int, b: int|
        0 <= a < b < p.len() ==> sorts_before(keys, #[trigger] p[a], #[trigger] p[b])
}

/// `urls` are the URLs of `e` stably sorted by key (`sort_by_key` is stable).
pub open spec fn stably_sorted_urls(e: Seq<(int, Seq<char>)>, urls: Seq<Seq<char>>) -> bool {
    exists|p: Seq<int>|
        {
            &&& is_stable_order(keys_of(e), p)
            &&& urls.len() == p.len()
            &&& forall|k: int| 0 <= k < p.len() ==> urls[k] == #[trigger] e[p[k]].1
        }
}

/// Two lists of the same indices, each strictly ordered by `sorts_before`,
/// are the same list.
proof fn lemma_ordered_unique(keys: Seq<int>, q1: Seq<int>, q2: Seq<int>)
    requires
        forall|a: int, b: int| 0 <= a < b < q1.len() ==> sorts_before(keys, #[trigger] q1[a], #[trigger] q1[b]),
        forall|a: int, b: int| 0 <= a < b < q2.len() ==> sorts_before(keys, #[trigger] q2[a], #[trigger] q2[b]),
        forall|x: int| q1.contains(x) <==> q2.contains(x),
    ensures
        q1 == q2,
    decreases q1.len(),
{
    if q1.len() == 0 {
        if q2.len() > 0 {
            assert(q2.contains(q2[0]));
        }
        assert(q1 =~= q2);
    } else {
        assert(q1.contains(q1[0]));
        assert(q2.contains(q1[0]));
        let j = choose|j: int| 0 <= j < q2.len() && q2[j] == q1[0];
        assert(q2.contains(q2[0]));
        assert(q1.contains(q2[0]));
        let i = choose|i: int| 0 <= i < q1.len() && q1[i] == q2[0];
        if j > 0 {
            assert(sorts_before(keys, q2[0], q2[j]));
            if i > 0 {
                assert(sorts_before(keys, q1[0], q1[i]));
            }
            assert(false);
        }
        let t1 = q1.drop_first();
        let t2 = q2.drop_first();
        assert forall|x: int| t1.contains(x) implies t2.contains(x) by {
            let a = choose|a: int| 0 <= a < t1.len() && t1[a] == x;
            assert(q1[a + 1] == x);
            assert(sorts_before(keys, q1[0], q1[a + 1]));
            assert(q1.contains(x));
            let b = choose|b: int| 0 <= b < q2.len() && q2[b] == x;
            assert(t2[b - 1] == x);
        }
        assert forall|x: int| t2.contains(x) implies t1.contains(x) by {
            let b = choose|b: int| 0 <= b < t2.len() && t2[b] == x;
            assert(q2[b + 1] == x);
            assert(sorts_before(keys, q2[0], q2[b + 1]));
            assert(q2.contains(x));
            let a = choose|a: int| 0 <= a < q1.len() && q1[a] == x;
            assert(t1[a - 1] == x);
        }
        assert forall|a: int, b: int| 0 <= a < b < t1.len() implies sorts_before(keys, #[trigger] t1[a], #[trigger] t1[b]) by {
            assert(sorts_before(keys, q1[a + 1], q1[b + 1]));
        }
        assert forall|a: int, b: int| 0 <= a < b < t2.len() implies sorts_before(keys, #[trigger] t2[a], #[trigger] t2[b]) by {
            assert(sorts_before(keys, q2[a + 1], q2[b + 1]));
        }
        lemma_ordered_unique(keys, t1, t2);
        assert forall|k: int| 0 <= k < q1.len() implies q1[k] == q2[k] by {
            if k > 0 {
                assert(q1[k] == t1[k - 1]);
                assert(q2[k] == t2[k - 1]);
            }
        }
        assert(q1 =~= q2);
    }
}

/// A stable sort has one outcome: the sub-stream URLs of a master playlist
/// are determined by its entries.
pub proof fn lemma_sorted_urls_unique(e: Seq<(int, Seq<char>)>, u1: Seq<Seq<char>>, u2: Seq<Seq<char>>)
    requires
        stably_sorted_urls(e, u1),
        stably_sorted_urls(e, u2),
    ensures
        u1 == u2,
{
    let keys = keys_of(e);
    let p1 = choose|p: Seq<int>| {
        &&& is_stable_order(keys, p)
        &&& u1.len() == p.len()
        &&& forall|k: int| 0 <= k < p.len() ==> u1[k] == #[trigger] e[p[k]].1
    };
    let p2 = choose|p: Seq<int>| {
        &&& is_stable_order(keys, p)
        &&& u2.len() == p.len()
        &&& forall|k: int| 0 <= k < p.len() ==> u2[k] == #[trigger] e[p[k]].1
    };
    assert forall|x: int| p1.contains(x) <==> p2.contains(x) by {
        if p1.contains(x) {
            let a = choose|a: int| 0 <= a < p1.len() && p1[a] == x;
            assert(0 <= p1[a] < keys.len());
        }
        if p2.contains(x) {
            let a = choose|a: int| 0 <= a < p2.len() && p2[a] == x;
            assert(0 <= p2[a] < keys.len());
        }
    }
    lemma_ordered_unique(keys, p1, p2);
    assert forall|k: int| 0 <= k < u1.len() implies u1[k] == u2[k] by {
        assert(u1[k] == e[p1[k]].1);
        assert(u2[k] == e[p2[k]].1);
    }
    assert(u1 =~= u2);
}

/// An insertion order over the first `n` indices of `keys`.
pub open spec fn stable_prefix(keys: Seq<int>, o: Seq<usize>, n: int) -> bool {
    &&& o.len() == n
    &&& forall|a: int| 0 <= a < o.len() ==> #[trigger] o[a] < n
    &&& forall|x: usize| 0 <= x < n ==> #[trigger] o.contains(x)
    &&& forall|a: int, b: int|
        0 <= a < b < o.len() ==> sorts_before(keys, #[trigger] o[a] as int, #[trigger] o[b] as int)
}

proof fn lemma_insert_keeps_order(keys: Seq<int>, o: Seq<usize>, n: int, pos: int)
    requires
        stable_prefix(keys, o, n),
        0 <= n < keys.len(),
        n < usize::MAX,
        0 <= pos <= o.len(),
        forall|a: int| 0 <= a < pos ==> keys[#[trigger] o[a] as int] <= keys[n],
        forall|a: int| pos <= a < o.len() ==> keys[#[trigger] o[a] as int] > keys[n],
    ensures
        stable_prefix(keys, o.insert(pos, n as usize), n + 1),
{
    let m = o.insert(pos, n as usize);
    o.insert_ensures(pos, n as usize);
    assert forall|a: int| 0 <= a < m.len() implies #[trigger] m[a] < n + 1 by {
        if a < pos {
        } else if a == pos {
        } else {
            assert(m[a] == o[a - 1]);
        }
    }
    assert forall|x: usize| 0 <= x < n + 1 implies #[trigger] m.contains(x) by {
        if x == n {
            assert(m[pos] == x);
        } else {
            assert(o.contains(x));
            let a = choose|a: int| 0 <= a < o.len() && #[trigger] o[a] == x;
            if a < pos {
                assert(m[a] == x);
            } else {
                assert(m[a + 1] == x);
            }
        }
    }
    assert forall|a: int, b: int| 0 <= a < b < m.len() implies sorts_before(
        keys,
        #[trigger] m[a] as int,
        #[trigger] m[b] as int,
    ) by {
        if b < pos {
            assert(sorts_before(keys, o[a] as int, o[b] as int));
        } else if b == pos {
            assert(o[a] < n);
        } else if a < pos {
            assert(m[b] == o[b - 1]);
            assert(sorts_before(keys, o[a] as int, o[b - 1] as int));
        } else if a == pos {
            assert(m[b] == o[b - 1]);
        } else {
            assert(m[a] == o[a - 1]);
            assert(m[b] == o[b - 1]);
            assert(sorts_before(keys, o[a - 1] as int, o[b - 1] as int));
        }
    }
}

/// The indices `0..keys.len()` in stable sorted order of their keys.
fn stable_order_by_key(keys: &Vec<i32>) -> (r: Vec<usize>)
    ensures
        stable_prefix(keys@.map_values(|k: i32| k as int), r@, keys.len() as int),
{
    let ghost ks = keys@.map_values(|k: i32| k as int);
    let mut order: Vec<usize> = Vec::new();
    let mut i: usize = 0;
    while i < keys.len()
        invariant
            i <= keys.len(),
            ks == keys@.map_values(|k: i32| k as int),
            stable_prefix(ks, order@, i as int),
        decreases keys.len() - i,
    {
        let ki = keys[i];
        let mut pos: usize = 0;
        while pos < order.len() && keys[order[pos]] <= ki
            invariant
                pos <= order.len(),
                i < keys.len(),
                ks == keys@.map_values(|k: i32| k as int),
                stable_prefix(ks, order@, i as int),
                ki == keys@[i as int],
                forall|a: int| 0 <= a < pos ==> ks[#[trigger] order@[a] as int] <= ks[i as int],
            decreases order.len() - pos,
        {
            pos += 1;
        }
        proof {
            assert forall|a: int| pos <= a < order@.len() implies ks[#[trigger] order@[a] as int]
                > ks[i as int] by {
                if a > pos {
                    assert(sorts_before(ks, order@[pos as int] as int, order@[a] as int));
                }
            }
            lemma_insert_keeps_order(ks, order@, i as int, pos as int);
        }
        order.insert(pos, i);
        i += 1;
    }
    order
}

/// The views of `(key, url)` pairs.
pub open spec fn entries_view(v: Seq<(i32, String)>) -> Seq<(int, Seq<char>)> {
    v.map_values(|e: (i32, String)| (e.0 as int, e.1@))
}

fn url_line_scan_exec(ls: &Vec<Vec<char>>, k: usize) -> (r: usize)
    requires
        k <= ls.len(),
    ensures
        r == url_line_scan(views_of(ls@), k as int),
{
    let ghost v = views_of(ls@);
    let mut j = k;
    while j < ls.len() && !is_url_line_exec(&ls[j])
        invariant
            k <= j <= ls.len(),
            v == views_of(ls@),
            url_line_scan(v, k as int) == url_line_scan(v, j as int),
        decreases ls.len() - j,
    {
        assert(v[j as int] == ls@[j as int]@);
        j += 1;
    }
    if j < ls.len() {
        assert(v[j as int] == ls@[j as int]@);
    }
    j
}

fn is_url_line_exec(l: &Vec<char>) -> (r: bool)
    ensures
        r == is_url_line(trim(l@)),
{
    let t = trim_chars(l);
    t.len() > 0 && t[0] != '#'
}

fn stream_inf_width_exec(line: &Vec<char>) -> (r: Option<i32>)
    ensures
        r matches Some(w) ==> stream_inf_width(line@) == Some(w as int),
        r is None ==> stream_inf_width(line@) is None,
{
    let pat = chars_of("RESOLUTION=");
    let i = match find_vec_from(line, &pat, 0) {
        Some(i) => i,
        None => return None,
    };
    proof {
        lemma_find_from(line@, pat@, 0);
        assert(matches_at(line@, pat@, i as int));
    }
    let n = line.len();
    let plen = pat.len();
    assert(i + plen <= n);
    let rest = sub_vec(line, i + plen, n);
    let seg = match find_vec_from(&rest, &pat, 0) {
        Some(j) => {
            proof {
                lemma_find_from(rest@, pat@, 0);
            }
            sub_vec(&rest, 0, j)
        },
        None => rest,
    };
    assert(split_second(line@, "RESOLUTION="@) == Some(seg@));
    let c = next_char_exec(&seg, ',', 0);
    proof {
        lemma_next_char(seg@, ',', 0);
    }
    let first = sub_vec(&seg, 0, c);
    let x = next_char_exec(&first, 'x', 0);
    proof {
        lemma_next_char(first@, 'x', 0);
    }
    if x < first.len() && next_char_exec(&first, 'x', x + 1) == first.len() {
        let head = sub_vec(&first, 0, x);
        parse_i32(&head)
    } else {
        None
    }
}

// ---------------------------------------------------------------------------
// Scraping decisions
// ---------------------------------------------------------------------------

/// The largest playlist body accepted, in bytes (10 MiB).
pub const MAX_PLAYLIST_BYTES: usize = 10 * 1024 * 1024;

/// What a scrape does with a downloaded playlist: it is finished with these
/// entries, or it must download the given sub-playlist first.
pub enum ScrapeStep {
    Finished(Vec<RawPlayItem>),
    FetchSubPlaylist(String),
}

/// Entry `m` is the best sub-stream: it sorts after every other entry in the
/// stable order by width, i.e. it is the widest, and the last of the widest.
pub open spec fn is_best_sub_stream(e: Seq<(int, Seq<char>)>, m: int) -> bool {
    &&& 0 <= m < e.len()
    &&& forall|j: int| 0 <= j < e.len() && j != m ==> #[trigger] sorts_before(keys_of(e), j, m)
}

/// A master playlist has one best sub-stream.
pub proof fn lemma_best_sub_stream_unique(e: Seq<(int, Seq<char>)>, m1: int, m2: int)
    requires
        is_best_sub_stream(e, m1),
        is_best_sub_stream(e, m2),
    ensures
        m1 == m2,
{
    if m1 != m2 {
        assert(sorts_before(keys_of(e), m1, m2));
        assert(sorts_before(keys_of(e), m2, m1));
    }
}

/// The best sub-stream is one of the widest: no sub-stream has a larger
/// sort key (width).
pub proof fn lemma_best_is_widest(e: Seq<(int, Seq<char>)>, m: int)
    requires
        is_best_sub_stream(e, m),
    ensures
        forall|j: int| 0 <= j < e.len() ==> #[trigger] e[j].0 <= e[m].0,
{
    assert forall|j: int| 0 <= j < e.len() implies #[trigger] e[j].0 <= e[m].0 by {
        if j != m {
            assert(sorts_before(keys_of(e), j, m));
        }
    }
}

/// A playlist body that holds no playlist: blank, or without `#EXTM3U`.
pub open spec fn not_a_playlist(content: Seq<char>) -> bool {
    trim(content).len() == 0 || !contains(content, "#EXTM3U"@)
}

/// A playlist body that is a master playlist (`#EXT-X-STREAM-INF` entries).
pub open spec fn is_master_playlist(content: Seq<char>) -> bool {
    !not_a_playlist(content) && contains(content, "#EXT-X-STREAM-INF"@)
}

/// A downloaded sub-playlist that can be read as a simple playlist.
pub open spec fn is_simple_sub_playlist(content: Seq<char>) -> bool {
    contains(content, "#EXTM3U"@) && !contains(content, "#EXT-X-STREAM-INF"@)
}

/// The message for a playlist body over the size limit.
pub open spec fn too_large_message(len: nat) -> Seq<char> {
    "播源内容过大 ("@ + decimal(len) + " bytes)，跳过"@
}

/// The text of a downloaded playlist body: bodies over [`MAX_PLAYLIST_BYTES`]
/// are refused with a message; others are decoded as UTF-8, invalid
/// sequences replaced.
pub fn accept_playlist_body(bytes: &Vec<u8>) -> (r: Result<String, String>)
    ensures
        bytes.len() > MAX_PLAYLIST_BYTES ==> (r matches Err(m) && m@ == too_large_message(
            bytes.len() as nat,
        )),
        bytes.len() <= MAX_PLAYLIST_BYTES ==> (r matches Ok(t) && t@ == utf8_lossy(bytes@)),
{
    if bytes.len() > MAX_PLAYLIST_BYTES {
        let mut m = chars_of("播源内容过大 (");
        let digits = format_u64(bytes.len() as u64);
        append_vec(&mut m, &digits);
        append_str(&mut m, " bytes)，跳过");
        return Err(string_of(&m));
    }
    let text = decode_utf8_lossy(bytes.as_slice());
    Ok(string_of(&text))
}

/// The number of body bytes examined when probing a stream address.
pub const PROBE_BYTES: usize = 4096;

/// Playlist markers that identify an M3U/M3U8 body.
pub open spec fn has_m3u_marker(text: Seq<char>) -> bool {
    contains(text, "#EXTM3U"@) || contains(text, "#EXTINF"@) || contains(text, "#EXT-X-STREAM-INF"@)
}

pub fn has_m3u_marker_exec(text: &Vec<char>) -> (r: bool)
    ensures
        r == has_m3u_marker(text@),
{
    contains_str(text, "#EXTM3U") || contains_str(text, "#EXTINF") || contains_str(
        text,
        "#EXT-X-STREAM-INF",
    )
}

/// The decoded text of the first [`PROBE_BYTES`] bytes of a body.
pub open spec fn probe_text(body: Seq<u8>) -> Seq<char> {
    utf8_lossy(body.subrange(0, if body.len() < PROBE_BYTES { body.len() as int } else { PROBE_BYTES as int }))
}

pub fn probe_text_exec(body: &Vec<u8>) -> (r: Vec<char>)
    ensures
        r@ == probe_text(body@),
{
    let end = if body.len() < PROBE_BYTES {
        body.len()
    } else {
        PROBE_BYTES
    };
    let head = sub_vec(body, 0, end);
    decode_utf8_lossy(head.as_slice())
}

/// The status a live stream address answers with: `200 OK`.
pub open spec fn is_ok_status(status: u16) -> bool {
    status == 200
}

/// The verdict of probing a stream address that answered with `status`
/// and `body`: the status must be 200 and the first bytes must carry an
/// M3U marker; any other status is reported by its number.
pub open spec fn probe_verdict_spec(status: u16, body: Seq<u8>) -> (bool, Seq<char>) {
    if !is_ok_status(status) {
        (false, "HTTP "@ + decimal(status as nat))
    } else if has_m3u_marker(probe_text(body)) {
        (true, "M3U 有效"@)
    } else {
        (false, "非 M3U 格式"@)
    }
}

pub fn probe_verdict(status: u16, body: &Vec<u8>) -> (r: (bool, String))
    ensures
        (r.0, r.1@) == probe_verdict_spec(status, body@),
{
    if status != 200 {
        let mut m = chars_of("HTTP ");
        let digits = format_u64(status as u64);
        append_vec(&mut m, &digits);
        return (false, string_of(&m));
    }
    let text = probe_text_exec(body);
    if has_m3u_marker_exec(&text) {
        (true, "M3U 有效".to_string())
    } else {
        (false, "非 M3U 格式".to_string())
    }
}

impl M3uPlaylistFetcher {
    pub fn new(
        source_name: String,
        playlist_url: String,
        category: Option<String>,
        client: reqwest::Client,
    ) -> (r: Self)
        ensures
            r.source_name == source_name,
            r.playlist_url == playlist_url,
            r.category == category,
            r.client == client,
    {
        M3uPlaylistFetcher { source_name, playlist_url, category, client }
    }

    /// The HTTP client to download this playlist with.
    pub fn client(&self) -> (r: &reqwest::Client)
        ensures
            *r == self.client,
    {
        &self.client
    }

    /// The name of the source this fetcher reads.
    pub fn source_name(&self) -> (r: &str)
        ensures
            r@ == self.source_name@,
    {
        self.source_name.as_str()
    }

    /// The entry for an `#EXTINF` line and its URL line (empty when the
    /// resolved address is not HLS).
    fn entry_for(&self, line: &Vec<char>, url_line: &Vec<char>) -> (r: Vec<RawPlayItem>)
        ensures
            raw_items_view(r@) == extinf_entry(self@, line@, url_line@),
    {
        let url_s = string_of(url_line);
        let resolved = resolve_url(self.playlist_url.as_str(), url_s.as_str());
        let rv = chars_of(resolved.as_str());
        let mut out: Vec<RawPlayItem> = Vec::new();
        if is_hls_exec(&rv) {
            let name = extinf_name_exec(line);
            let group = chars_of("group-title");
            let category = extinf_attr_exec(line, &group);
            let res_attr = chars_of("tvg-resolution");
            let resolution = extinf_attr_exec(line, &res_attr);
            let category = match category {
                Some(c) => Some(string_of(&c)),
                None => clone_opt_string(&self.category),
            };
            let item = RawPlayItem {
                channel_name: string_of(&name),
                url: resolved,
                source: self.source_name.clone(),
                category,
                resolution: opt_chars_to_string(resolution),
            };
            out.push(item);
        }
        assert(raw_items_view(out@) =~= extinf_entry(self@, line@, url_line@));
        out
    }

    /// The sub-stream URLs of a master playlist, stably sorted by width
    /// (unknown widths count as 0), lowest first.
    pub fn extract_sub_urls(&self, content: &str) -> (r: Vec<String>)
        ensures
            stably_sorted_urls(sub_streams(self@, content@), r@.map_values(|u: String| u@)),
    {
        let cs = chars_of(content);
        let ls = lines_exec(&cs);
        let ghost v = views_of(ls@);
        let mut ents: Vec<(i32, String)> = Vec::new();
        let mut i: usize = 0;
        while i < ls.len()
            invariant
                i <= ls.len(),
                v == views_of(ls@),
                v == lines(content@),
                entries_view(ents@) + sub_streams_from(self@, v, i as int) == sub_streams_from(
                    self@,
                    v,
                    0,
                ),
            decreases ls.len() - i,
        {
            let ghost before = entries_view(ents@);
            assert(v[i as int] == ls@[i as int]@);
            let line = trim_chars(&ls[i]);
            if starts_with_str(&line, "#EXT-X-STREAM-INF") {
                let j = url_line_scan_exec(&ls, i + 1);
                proof {
                    lemma_url_line_scan(v, i + 1);
                }
                if j < ls.len() {
                    assert(v[j as int] == ls@[j as int]@);
                    let key: i32 = match stream_inf_width_exec(&line) {
                        Some(w) => w,
                        None => 0,
                    };
                    let next = trim_chars(&ls[j]);
                    let next_s = string_of(&next);
                    let url = resolve_url(self.playlist_url.as_str(), next_s.as_str());
                    ents.push((key, url));
                    assert(entries_view(ents@) =~= before + seq![
                        (width_key(line@), resolve_url_spec(self@.url, trim(v[j as int]))),
                    ]);
                    i = j + 1;
                } else {
                    i = ls.len();
                }
            } else {
                i = i + 1;
            }
        }
        let ghost e = entries_view(ents@);
        assert(e == sub_streams(self@, content@));
        let mut keys: Vec<i32> = Vec::new();
        let mut k: usize = 0;
        while k < ents.len()
            invariant
                k <= ents.len(),
                keys@.len() == k,
                forall|a: int| 0 <= a < k ==> #[trigger] keys@[a] == ents@[a].0,
            decreases ents.len() - k,
        {
            keys.push(ents[k].0);
            k += 1;
        }
        let order = stable_order_by_key(&keys);
        let ghost ks = keys@.map_values(|x: i32| x as int);
        assert(ks =~= keys_of(e));
        let mut urls: Vec<String> = Vec::new();
        let mut m: usize = 0;
        while m < order.len()
            invariant
                m <= order.len(),
                order.len() == ents.len(),
                stable_prefix(ks, order@, ents.len() as int),
                e == entries_view(ents@),
                urls@.len() == m,
                forall|a: int| 0 <= a < m ==> #[trigger] urls@[a]@ == e[order@[a] as int].1,
            decreases order.len() - m,
        {
            let idx = order[m];
            urls.push(ents[idx].1.clone());
            m += 1;
        }
        proof {
            let p = order@.map_values(|x: usize| x as int);
            let uv = urls@.map_values(|u: String| u@);
            assert(is_stable_order(keys_of(e), p)) by {
                assert forall|a: int, b: int| 0 <= a < b < p.len() implies sorts_before(
                    keys_of(e),
                    #[trigger] p[a],
                    #[trigger] p[b],
                ) by {
                    assert(sorts_before(ks, order@[a] as int, order@[b] as int));
                }
                assert forall|a: int| 0 <= a < p.len() implies 0 <= #[trigger] p[a] < keys_of(
                    e,
                ).len() by {
                    assert(order@[a] < ents.len());
                }
                assert forall|x: int| 0 <= x < keys_of(e).len() implies #[trigger] p.contains(x) by {
                    assert(order@.contains(x as usize));
                    let a = choose|a: int| 0 <= a < order@.len() && #[trigger] order@[a] == x as usize;
                    assert(p[a] == x);
                }
            }
            assert forall|q: int| 0 <= q < p.len() implies uv[q] == #[trigger] e[p[q]].1 by {
                assert(urls@[q]@ == e[order@[q] as int].1);
            }
        }
        urls
    }

    /// What to do with a downloaded playlist body: nothing to read when it
    /// is blank or not M3U; the entries of a simple playlist; for a master
    /// playlist, download its best sub-stream (nothing when it has none).
    pub fn plan_scrape(&self, content: &str) -> (r: ScrapeStep)
        ensures
            not_a_playlist(content@) ==> (r matches ScrapeStep::Finished(v) && v@.len() == 0),
            !not_a_playlist(content@) && !is_master_playlist(content@) ==> (r matches ScrapeStep::Finished(v)
                && raw_items_view(v@) == simple_playlist_items(self@, content@)),
            is_master_playlist(content@) && sub_streams(self@, content@).len() == 0 ==> (r matches ScrapeStep::Finished(v)
                && v@.len() == 0),
            is_master_playlist(content@) && sub_streams(self@, content@).len() > 0 ==> (r matches ScrapeStep::FetchSubPlaylist(u)
                && exists|m: int| is_best_sub_stream(sub_streams(self@, content@), m) && u@ == sub_streams(self@, content@)[m].1),
    {
        let cs = chars_of(content);
        let t = trim_chars(&cs);
        if t.len() == 0 || !contains_str(&cs, "#EXTM3U") {
            return ScrapeStep::Finished(Vec::new());
        }
        if contains_str(&cs, "#EXT-X-STREAM-INF") {
            let subs = self.extract_sub_urls(content);
            let ghost e = sub_streams(self@, content@);
            let ghost uv = subs@.map_values(|u: String| u@);
            if subs.len() == 0 {
                return ScrapeStep::Finished(Vec::new());
            }
            let n = subs.len();
            let best = subs[n - 1].clone();
            proof {
                let p = choose|p: Seq<int>| {
                    &&& is_stable_order(keys_of(e), p)
                    &&& uv.len() == p.len()
                    &&& forall|k: int| 0 <= k < p.len() ==> uv[k] == #[trigger] e[p[k]].1
                };
                let m = p[n - 1];
                assert(uv[n - 1] == e[p[n - 1]].1);
                assert forall|j: int| 0 <= j < e.len() && j != m implies #[trigger] sorts_before(keys_of(e), j, m) by {
                    assert(p.contains(j));
                    let a = choose|a: int| 0 <= a < p.len() && p[a] == j;
                    assert(a != n - 1);
                    assert(sorts_before(keys_of(e), p[a], p[n - 1]));
                }
                assert(is_best_sub_stream(e, m));
            }
            return ScrapeStep::FetchSubPlaylist(best);
        }
        ScrapeStep::Finished(self.parse_simple_playlist(content))
    }

    /// The entries from the downloaded best sub-stream of a master playlist
    /// (`None` when the download failed): read only when it is a simple
    /// playlist, relative addresses resolved against this playlist's URL.
    pub fn finish_sub_playlist(&self, sub_content: Option<&str>) -> (r: Vec<RawPlayItem>)
        ensures
            match sub_content {
                Some(c) => if is_simple_sub_playlist(c@) {
                    raw_items_view(r@) == simple_playlist_items(self@, c@)
                } else {
                    r@.len() == 0
                },
                None => r@.len() == 0,
            },
    {
        match sub_content {
            Some(c) => {
                let cs = chars_of(c);
                if contains_str(&cs, "#EXTM3U") && !contains_str(&cs, "#EXT-X-STREAM-INF") {
                    self.parse_simple_playlist(c)
                } else {
                    Vec::new()
                }
            },
            None => Vec::new(),
        }
    }

    /// Reads a simple playlist: one entry per `#EXTINF` line whose URL line
    /// resolves to an HLS address.
    pub fn parse_simple_playlist(&self, content: &str) -> (r: Vec<RawPlayItem>)
        ensures
            raw_items_view(r@) == simple_playlist_items(self@, content@),
    {
        let cs = chars_of(content);
        let ls = lines_exec(&cs);
        let ghost v = views_of(ls@);
        let mut items: Vec<RawPlayItem> = Vec::new();
        let mut i: usize = 0;
        while i < ls.len()
            invariant
                i <= ls.len(),
                v == views_of(ls@),
                v == lines(content@),
                raw_items_view(items@) + simple_items_from(self@, v, i as int)
                    == simple_items_from(self@, v, 0),
            decreases ls.len() - i,
        {
            let ghost before = raw_items_view(items@);
            assert(v[i as int] == ls@[i as int]@);
            let line = trim_chars(&ls[i]);
            if starts_with_str(&line, "#EXTINF") {
                let j = url_scan_exec(&ls, i + 1);
                proof {
                    lemma_url_scan(v, i + 1);
                }
                if j < ls.len() {
                    assert(v[j as int] == ls@[j as int]@);
                    let next = trim_chars(&ls[j]);
                    if next.len() > 0 && next[0] != '#' {
                        let found = self.entry_for(&line, &next);
                        let ghost added = raw_items_view(found@);
                        let mut found = found;
                        items.append(&mut found);
                        assert(raw_items_view(items@) =~= before + added);
                    }
                    i = j + 1;
                } else {
                    i = ls.len();
                }
            } else {
                i = i + 1;
            }
        }
        items
    }
}

} // verus!
