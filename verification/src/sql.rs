//! SQL text and bound values of the listing queries, and the clean-up of
//! play addresses that a source no longer lists.
use vstd::prelude::*;

use crate::num::{decimal, format_u64};
use crate::text::{append_str, append_vec, chars_of, string_of};

verus! {

/// A value bound to a numbered `?N` parameter.
pub enum SqlValue {
    Text(String),
    Int(i64),
    Bool(bool),
}

pub enum SqlValueView {
    Text(Seq<char>),
    Int(int),
    Bool(bool),
}

impl View for SqlValue {
    type V = SqlValueView;

    open spec fn view(&self) -> SqlValueView {
        match self {
            SqlValue::Text(s) => SqlValueView::Text(s@),
            SqlValue::Int(i) => SqlValueView::Int(*i as int),
            SqlValue::Bool(b) => SqlValueView::Bool(*b),
        }
    }
}

pub open spec fn values_view(v: Seq<SqlValue>) -> Seq<SqlValueView> {
    v.map_values(|x: SqlValue| x@)
}

/// The numbered parameter `?n`.
pub open spec fn placeholder(n: nat) -> Seq<char> {
    seq!['?'] + decimal(n)
}

/// A `LIKE` pattern matching texts that contain `s`.
pub open spec fn like_pattern(s: Seq<char>) -> Seq<char> {
    seq!['%'] + s + seq!['%']
}

/// A `WHERE` clause and the values of its parameters, numbered from 1.
pub struct SqlFilter {
    pub clause: String,
    pub binds: Vec<SqlValue>,
}

/// The filter after one more condition: ` AND ` and the condition, which
/// uses the next parameter number for `value`.
pub open spec fn and_condition(f: (Seq<char>, Seq<SqlValueView>), before: Seq<char>, twice: Option<Seq<char>>, after: Seq<char>, value: SqlValueView) -> (Seq<char>, Seq<SqlValueView>) {
    let p = placeholder((f.1.len() + 1) as nat);
    let cond = match twice {
        Some(mid) => before + p + mid + p + after,
        None => before + p + after,
    };
    (f.0 + " AND "@ + cond, f.1.push(value))
}

/// The filter of the channel listing: by name containing `keyword`, by source.
pub open spec fn channel_filter_spec(keyword: Option<Seq<char>>, source: Option<Seq<char>>) -> (Seq<char>, Seq<SqlValueView>) {
    let f0 = ("1=1"@, Seq::<SqlValueView>::empty());
    let f1 = match keyword {
        Some(k) => and_condition(f0, "name LIKE "@, None, Seq::empty(), SqlValueView::Text(like_pattern(k))),
        None => f0,
    };
    match source {
        Some(s) => and_condition(f1, "source = "@, None, Seq::empty(), SqlValueView::Text(s)),
        None => f1,
    }
}

/// The filter of the play-address listing: by channel name containing
/// `channel`, by source, by validity, and by `keyword` in name or URL.
pub open spec fn play_item_filter_spec(
    channel: Option<Seq<char>>,
    source: Option<Seq<char>>,
    is_valid: Option<bool>,
    keyword: Option<Seq<char>>,
) -> (Seq<char>, Seq<SqlValueView>) {
    let f0 = ("1=1"@, Seq::<SqlValueView>::empty());
    let f1 = match channel {
        Some(c) => and_condition(f0, "channel_name LIKE "@, None, Seq::empty(), SqlValueView::Text(like_pattern(c))),
        None => f0,
    };
    let f2 = match source {
        Some(s) => and_condition(f1, "source = "@, None, Seq::empty(), SqlValueView::Text(s)),
        None => f1,
    };
    let f3 = match is_valid {
        Some(v) => and_condition(f2, "is_valid = "@, None, Seq::empty(), SqlValueView::Bool(v)),
        None => f2,
    };
    match keyword {
        Some(k) => and_condition(f3, "(channel_name LIKE "@, Some(" OR url LIKE "@), ")"@, SqlValueView::Text(like_pattern(k))),
        None => f3,
    }
}

/// The one-element sequence of a present value, the empty one otherwise.
pub open spec fn present<T>(o: Option<T>) -> Seq<T> {
    match o {
        Some(x) => seq![x],
        None => seq![],
    }
}

/// The text bound to a contains-match: the value between two `%`.
pub open spec fn wrapped_text(o: Option<Seq<char>>) -> Option<SqlValueView> {
    match o {
        Some(v) => Some(SqlValueView::Text(seq!['%'] + v + seq!['%'])),
        None => None,
    }
}

/// The text bound to an equality test: the value itself.
pub open spec fn plain_text(o: Option<Seq<char>>) -> Option<SqlValueView> {
    match o {
        Some(v) => Some(SqlValueView::Text(v)),
        None => None,
    }
}

/// The values bound by the channel filter, in order: the keyword wrapped
/// in `%` (a contains-match on the name), then the source as given.
pub proof fn lemma_channel_filter_binds(keyword: Option<Seq<char>>, source: Option<Seq<char>>)
    ensures
        channel_filter_spec(keyword, source).1 == present(wrapped_text(keyword)) + present(
            plain_text(source),
        ),
{
    let f = channel_filter_spec(keyword, source);
    assert(f.1 =~= present(wrapped_text(keyword)) + present(plain_text(source)));
}

/// The values bound by the play-address filter, in order: the channel
/// wrapped in `%` (a contains-match), the source as given, the validity,
/// the keyword wrapped in `%` (a contains-match on name or URL).
pub proof fn lemma_play_item_filter_binds(
    channel: Option<Seq<char>>,
    source: Option<Seq<char>>,
    is_valid: Option<bool>,
    keyword: Option<Seq<char>>,
)
    ensures
        play_item_filter_spec(channel, source, is_valid, keyword).1 == present(wrapped_text(channel))
            + present(plain_text(source)) + present(
            match is_valid {
                Some(v) => Some(SqlValueView::Bool(v)),
                None => None,
            },
        ) + present(wrapped_text(keyword)),
{
    let f = play_item_filter_spec(channel, source, is_valid, keyword);
    assert(f.1 =~= present(wrapped_text(channel)) + present(plain_text(source)) + present(
        match is_valid {
            Some(v) => Some(SqlValueView::Bool(v)),
            None => None,
        },
    ) + present(wrapped_text(keyword)));
}

fn placeholder_exec(n: u64) -> (r: Vec<char>)
    ensures
        r@ == placeholder(n as nat),
{
    let mut v: Vec<char> = Vec::new();
    v.push('?');
    let d = format_u64(n);
    append_vec(&mut v, &d);
    assert(v@ =~= placeholder(n as nat));
    v
}

fn like_exec(s: &str) -> (r: String)
    ensures
        r@ == like_pattern(s@),
{
    let mut v: Vec<char> = Vec::new();
    v.push('%');
    append_str(&mut v, s);
    v.push('%');
    assert(v@ =~= like_pattern(s@));
    string_of(&v)
}

fn add_condition(
    clause: &mut Vec<char>,
    binds: &mut Vec<SqlValue>,
    before: &str,
    twice: Option<&str>,
    after: &str,
    value: SqlValue,
)
    requires
        old(binds)@.len() < 1000,
    ensures
        (final(clause)@, values_view(final(binds)@)) == and_condition(
            (old(clause)@, values_view(old(binds)@)),
            before@,
            match twice {
                Some(m) => Some(m@),
                None => None,
            },
            after@,
            value@,
        ),
        final(binds)@.len() == old(binds)@.len() + 1,
{
    let n = (binds.len() + 1) as u64;
    let p = placeholder_exec(n);
    append_str(clause, " AND ");
    append_str(clause, before);
    append_vec(clause, &p);
    match twice {
        Some(mid) => {
            append_str(clause, mid);
            append_vec(clause, &p);
        },
        None => {},
    }
    append_str(clause, after);
    let ghost vb = values_view(binds@);
    binds.push(value);
    assert(values_view(binds@) =~= vb.push(value@));
}

proof fn lemma_empty_text()
    ensures
        ""@ == Seq::<char>::empty(),
{
    reveal_strlit("");
    assert(""@ =~= Seq::<char>::empty());
}

pub fn channel_filter(keyword: Option<&str>, source: Option<&str>) -> (r: SqlFilter)
    ensures
        (r.clause@, values_view(r.binds@)) == channel_filter_spec(
            match keyword { Some(k) => Some(k@), None => None },
            match source { Some(s) => Some(s@), None => None },
        ),
        values_view(r.binds@) == present(wrapped_text(match keyword { Some(k) => Some(k@), None => None }))
            + present(plain_text(match source { Some(s) => Some(s@), None => None })),
{
    proof {
        lemma_empty_text();
        lemma_channel_filter_binds(
            match keyword { Some(k) => Some(k@), None => None },
            match source { Some(s) => Some(s@), None => None },
        );
    }
    let mut clause = chars_of("1=1");
    let mut binds: Vec<SqlValue> = Vec::new();
    assert(values_view(binds@) =~= Seq::<SqlValueView>::empty());
    if let Some(k) = keyword {
        add_condition(&mut clause, &mut binds, "name LIKE ", None, "", SqlValue::Text(like_exec(k)));
    }
    if let Some(s) = source {
        add_condition(&mut clause, &mut binds, "source = ", None, "", SqlValue::Text(s.to_string()));
    }
    SqlFilter { clause: string_of(&clause), binds }
}

pub fn play_item_filter(
    channel: Option<&str>,
    source: Option<&str>,
    is_valid: Option<bool>,
    keyword: Option<&str>,
) -> (r: SqlFilter)
    ensures
        (r.clause@, values_view(r.binds@)) == play_item_filter_spec(
            match channel { Some(c) => Some(c@), None => None },
            match source { Some(s) => Some(s@), None => None },
            is_valid,
            match keyword { Some(k) => Some(k@), None => None },
        ),
        values_view(r.binds@) == present(wrapped_text(match channel { Some(c) => Some(c@), None => None }))
            + present(plain_text(match source { Some(s) => Some(s@), None => None })) + present(
            match is_valid {
                Some(v) => Some(SqlValueView::Bool(v)),
                None => None,
            },
        ) + present(wrapped_text(match keyword { Some(k) => Some(k@), None => None })),
{
    proof {
        lemma_empty_text();
        lemma_play_item_filter_binds(
            match channel { Some(c) => Some(c@), None => None },
            match source { Some(s) => Some(s@), None => None },
            is_valid,
            match keyword { Some(k) => Some(k@), None => None },
        );
    }
    let mut clause = chars_of("1=1");
    let mut binds: Vec<SqlValue> = Vec::new();
    assert(values_view(binds@) =~= Seq::<SqlValueView>::empty());
    if let Some(c) = channel {
        add_condition(&mut clause, &mut binds, "channel_name LIKE ", None, "", SqlValue::Text(like_exec(c)));
    }
    if let Some(s) = source {
        add_condition(&mut clause, &mut binds, "source = ", None, "", SqlValue::Text(s.to_string()));
    }
    if let Some(v) = is_valid {
        add_condition(&mut clause, &mut binds, "is_valid = ", None, "", SqlValue::Bool(v));
    }
    if let Some(k) = keyword {
        add_condition(&mut clause, &mut binds, "(channel_name LIKE ", Some(" OR url LIKE "), ")", SqlValue::Text(like_exec(k)));
    }
    SqlFilter { clause: string_of(&clause), binds }
}

// ---------------------------------------------------------------------------
// Paging
// ---------------------------------------------------------------------------

/// The number of rows before page `page_num` (counted from 1), never negative.
pub open spec fn page_offset_spec(page_num: int, page_size: int) -> int {
    let o = (page_num - 1) * page_size;
    if o < 0 {
        0
    } else {
        o
    }
}

pub fn page_offset(page_num: i32, page_size: i32) -> (r: i32)
    requires
        i32::MIN <= (page_num - 1) * page_size <= i32::MAX,
    ensures
        r == page_offset_spec(page_num as int, page_size as int),
{
    let a: i64 = page_num as i64 - 1;
    let b: i64 = page_size as i64;
    assert(-0x8000_0001 <= a <= 0x7fff_ffff);
    assert(-0x8000_0000 <= b <= 0x7fff_ffff);
    assert(-0x4000_0000_8000_0000 <= a * b <= 0x4000_0000_8000_0000) by (nonlinear_arith)
        requires
            -0x8000_0001 <= a <= 0x7fff_ffff,
            -0x8000_0000 <= b <= 0x7fff_ffff,
    ;
    let o = a * b;
    if o < 0 {
        0
    } else {
        o as i32
    }
}

/// A listing query: the count query and the page query, with their values.
pub struct PagedQuery {
    pub count_sql: String,
    pub count_binds: Vec<SqlValue>,
    pub page_sql: String,
    pub page_binds: Vec<SqlValue>,
}

/// `count` and `page` are the queries of `filter` over `table`, with the
/// columns and order of the page query given, and the page limit and offset
/// as the two parameters after the filter's.
pub open spec fn is_paged_query(
    q: PagedQuery,
    filter: (Seq<char>, Seq<SqlValueView>),
    table: Seq<char>,
    select_head: Seq<char>,
    order_tail: Seq<char>,
    limit: int,
    offset: int,
) -> bool {
    let n = filter.1.len();
    &&& q.count_sql@ == "SELECT COUNT(*) FROM "@ + table + " WHERE "@ + filter.0
    &&& values_view(q.count_binds@) == filter.1
    &&& q.page_sql@ == select_head + filter.0 + order_tail + placeholder((n + 1) as nat) + " OFFSET ?"@
        + decimal((n + 2) as nat)
    &&& values_view(q.page_binds@) == filter.1.push(SqlValueView::Int(limit)).push(SqlValueView::Int(offset))
}

fn copy_values(v: &Vec<SqlValue>) -> (r: Vec<SqlValue>)
    ensures
        values_view(r@) == values_view(v@),
{
    let mut out: Vec<SqlValue> = Vec::new();
    let mut i: usize = 0;
    while i < v.len()
        invariant
            i <= v.len(),
            values_view(out@) == values_view(v@.subrange(0, i as int)),
        decreases v.len() - i,
    {
        let x = match &v[i] {
            SqlValue::Text(s) => SqlValue::Text(s.clone()),
            SqlValue::Int(k) => SqlValue::Int(*k),
            SqlValue::Bool(b) => SqlValue::Bool(*b),
        };
        let ghost before = values_view(out@);
        out.push(x);
        assert(values_view(out@) =~= before.push(v@[i as int]@));
        assert(values_view(v@.subrange(0, i + 1)) =~= values_view(v@.subrange(0, i as int)).push(v@[i as int]@));
        i += 1;
    }
    assert(v@.subrange(0, v.len() as int) =~= v@);
    out
}

fn paged_query(filter: SqlFilter, table: &str, select_head: &str, order_tail: &str, page_num: i32, page_size: i32) -> (r: PagedQuery)
    requires
        i32::MIN <= (page_num - 1) * page_size <= i32::MAX,
        filter.binds@.len() < 1000,
    ensures
        is_paged_query(r, (filter.clause@, values_view(filter.binds@)), table@, select_head@, order_tail@, page_size as int, page_offset_spec(page_num as int, page_size as int)),
{
    let mut count = chars_of("SELECT COUNT(*) FROM ");
    append_str(&mut count, table);
    append_str(&mut count, " WHERE ");
    append_str(&mut count, filter.clause.as_str());
    let n = filter.binds.len() as u64;
    let mut page = chars_of(select_head);
    append_str(&mut page, filter.clause.as_str());
    append_str(&mut page, order_tail);
    let p1 = placeholder_exec(n + 1);
    append_vec(&mut page, &p1);
    append_str(&mut page, " OFFSET ?");
    let d2 = format_u64(n + 2);
    append_vec(&mut page, &d2);
    let count_binds = copy_values(&filter.binds);
    let mut page_binds = filter.binds;
    let ghost fb = values_view(page_binds@);
    page_binds.push(SqlValue::Int(page_size as i64));
    page_binds.push(SqlValue::Int(page_offset(page_num, page_size) as i64));
    assert(values_view(page_binds@) =~= fb.push(SqlValueView::Int(page_size as int)).push(SqlValueView::Int(page_offset_spec(page_num as int, page_size as int))));
    let r = PagedQuery {
        count_sql: string_of(&count),
        count_binds,
        page_sql: string_of(&page),
        page_binds,
    };
    assert(r.count_sql@ =~= "SELECT COUNT(*) FROM "@ + table@ + " WHERE "@ + filter.clause@);
    r
}

/// The queries of one page of the channel listing (ordered by id).
pub fn channel_page_query(keyword: Option<&str>, source: Option<&str>, page_num: i32, page_size: i32) -> (r: PagedQuery)
    requires
        i32::MIN <= (page_num - 1) * page_size <= i32::MAX,
    ensures
        is_paged_query(
            r,
            channel_filter_spec(
                match keyword { Some(k) => Some(k@), None => None },
                match source { Some(s) => Some(s@), None => None },
            ),
            "channels"@,
            "SELECT id, name, source, category, logo_url, created_at, updated_at\n             FROM channels WHERE "@,
            " ORDER BY id LIMIT "@,
            page_size as int,
            page_offset_spec(page_num as int, page_size as int),
        ),
{
    let f = channel_filter(keyword, source);
    paged_query(
        f,
        "channels",
        "SELECT id, name, source, category, logo_url, created_at, updated_at\n             FROM channels WHERE ",
        " ORDER BY id LIMIT ",
        page_num,
        page_size,
    )
}

/// The queries of one page of the play-address listing (valid ones first,
/// newest first).
pub fn play_item_page_query(
    channel: Option<&str>,
    source: Option<&str>,
    is_valid: Option<bool>,
    keyword: Option<&str>,
    page_num: i32,
    page_size: i32,
) -> (r: PagedQuery)
    requires
        i32::MIN <= (page_num - 1) * page_size <= i32::MAX,
    ensures
        is_paged_query(
            r,
            play_item_filter_spec(
                match channel { Some(c) => Some(c@), None => None },
                match source { Some(s) => Some(s@), None => None },
                is_valid,
                match keyword { Some(k) => Some(k@), None => None },
            ),
            "play_items"@,
            "SELECT id, channel_name, url, source, category, is_valid, fail_count,\n                    last_checked, resolution, bitrate, created_at, updated_at\n             FROM play_items WHERE "@,
            "\n             ORDER BY is_valid DESC, id DESC\n             LIMIT "@,
            page_size as int,
            page_offset_spec(page_num as int, page_size as int),
        ),
{
    let f = play_item_filter(channel, source, is_valid, keyword);
    paged_query(
        f,
        "play_items",
        "SELECT id, channel_name, url, source, category, is_valid, fail_count,\n                    last_checked, resolution, bitrate, created_at, updated_at\n             FROM play_items WHERE ",
        "\n             ORDER BY is_valid DESC, id DESC\n             LIMIT ",
        page_num,
        page_size,
    )
}

// ---------------------------------------------------------------------------
// Stale play addresses
// ---------------------------------------------------------------------------

/// `?2,?3,...,?{n+1}`: the parameters of `n` fresh URLs (`?1` is the source).
pub open spec fn url_placeholders(n: nat) -> Seq<char>
    decreases n,
{
    if n == 0 {
        Seq::empty()
    } else if n == 1 {
        placeholder(2)
    } else {
        url_placeholders((n - 1) as nat) + seq![','] + placeholder(n + 1)
    }
}

/// The statement that deletes a source's play addresses other than the
/// `fresh_count` fresh ones; none when there are no fresh URLs (nothing is
/// then deleted).
pub fn stale_cleanup_sql(fresh_count: usize) -> (r: Option<String>)
    requires
        fresh_count < usize::MAX,
    ensures
        fresh_count == 0 ==> r is None,
        fresh_count > 0 ==> (r matches Some(s) && s@ == "DELETE FROM play_items WHERE source = ?1 AND url NOT IN ("@ + url_placeholders(fresh_count as nat) + ")"@),
{
    if fresh_count == 0 {
        return None;
    }
    let mut list: Vec<char> = Vec::new();
    let mut k: usize = 0;
    while k < fresh_count
        invariant
            k <= fresh_count < usize::MAX,
            list@ == url_placeholders(k as nat),
        decreases fresh_count - k,
    {
        if k > 0 {
            list.push(',');
        }
        let p = placeholder_exec((k + 2) as u64);
        append_vec(&mut list, &p);
        k += 1;
        proof {
            if k == 1 {
                assert(list@ =~= url_placeholders(1));
            } else {
                assert(list@ =~= url_placeholders((k - 1) as nat) + seq![','] + placeholder((k + 1) as nat));
            }
        }
    }
    let mut s = chars_of("DELETE FROM play_items WHERE source = ?1 AND url NOT IN (");
    append_vec(&mut s, &list);
    append_str(&mut s, ")");
    Some(string_of(&s))
}

} // verus!
