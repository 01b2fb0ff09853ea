//! Export of the valid play addresses as an M3U8 playlist, grouped by
//! channel name in ascending order.
use vstd::prelude::*;

use crate::models::PlayItem;
use crate::text::{append_str, chars_of, string_of};

verus! {

// ---------------------------------------------------------------------------
// Lexicographic order of texts
// ---------------------------------------------------------------------------

/// `a` sorts before `b` character by character (a proper prefix first).
/// This is the order of `String`'s `Ord`: UTF-8 byte order is code-point order.
pub open spec fn lex_lt(a: Seq<char>, b: Seq<char>) -> bool
    decreases a.len(),
{
    if a.len() == 0 {
        b.len() > 0
    } else if b.len() == 0 {
        false
    } else if a[0] < b[0] {
        true
    } else if a[0] > b[0] {
        false
    } else {
        lex_lt(a.drop_first(), b.drop_first())
    }
}

/// No text sorts before itself.
pub proof fn lemma_lex_irreflexive(a: Seq<char>)
    ensures
        !lex_lt(a, a),
    decreases a.len(),
{
    if a.len() > 0 {
        lemma_lex_irreflexive(a.drop_first());
    }
}

/// Of two different texts, exactly one sorts before the other.
pub proof fn lemma_lex_total(a: Seq<char>, b: Seq<char>)
    ensures
        a == b || lex_lt(a, b) || lex_lt(b, a),
        !(lex_lt(a, b) && lex_lt(b, a)),
    decreases a.len(),
{
    if a.len() == 0 {
        if b.len() == 0 {
            assert(a =~= b);
        }
    } else if b.len() == 0 {
    } else if a[0] == b[0] {
        lemma_lex_total(a.drop_first(), b.drop_first());
        if a.drop_first() == b.drop_first() {
            assert(a.len() == b.len());
            assert forall|i: int| 0 <= i < a.len() implies a[i] == b[i] by {
                if i > 0 {
                    assert(a[i] == a.drop_first()[i - 1]);
                    assert(b[i] == b.drop_first()[i - 1]);
                }
            }
            assert(a =~= b);
        }
    }
}

/// Sorting before is transitive.
pub proof fn lemma_lex_transitive(a: Seq<char>, b: Seq<char>, c: Seq<char>)
    requires
        lex_lt(a, b),
        lex_lt(b, c),
    ensures
        lex_lt(a, c),
    decreases a.len(),
{
    if a.len() > 0 && b.len() > 0 && c.len() > 0 && a[0] == b[0] && b[0] == c[0] {
        lemma_lex_transitive(a.drop_first(), b.drop_first(), c.drop_first());
    }
}

/// Three-way comparison: negative, zero or positive as `a` sorts before,
/// equals, or sorts after `b`.
pub fn lex_compare(a: &Vec<char>, b: &Vec<char>) -> (r: i8)
    ensures
        r < 0 <==> lex_lt(a@, b@),
        r == 0 <==> a@ == b@,
        r > 0 <==> lex_lt(b@, a@),
{
    let mut i: usize = 0;
    assert(a@.subrange(0, a.len() as int) =~= a@);
    assert(b@.subrange(0, b.len() as int) =~= b@);
    assert(a@.subrange(0, 0) =~= b@.subrange(0, 0));
    while i < a.len() && i < b.len() && a[i] == b[i]
        invariant
            i <= a.len(),
            i <= b.len(),
            a@.subrange(0, i as int) == b@.subrange(0, i as int),
            lex_lt(a@, b@) == lex_lt(a@.subrange(i as int, a.len() as int), b@.subrange(i as int, b.len() as int)),
            lex_lt(b@, a@) == lex_lt(b@.subrange(i as int, b.len() as int), a@.subrange(i as int, a.len() as int)),
        decreases a.len() - i,
    {
        let ghost sa = a@.subrange(i as int, a.len() as int);
        let ghost sb = b@.subrange(i as int, b.len() as int);
        assert(sa.drop_first() =~= a@.subrange(i + 1, a.len() as int));
        assert(sb.drop_first() =~= b@.subrange(i + 1, b.len() as int));
        assert(a@.subrange(0, i + 1) =~= a@.subrange(0, i as int).push(a@[i as int]));
        assert(b@.subrange(0, i + 1) =~= b@.subrange(0, i as int).push(b@[i as int]));
        i += 1;
    }
    let ghost sa = a@.subrange(i as int, a.len() as int);
    let ghost sb = b@.subrange(i as int, b.len() as int);
    proof {
        lemma_lex_total(a@, b@);
        lemma_lex_irreflexive(a@);
    }
    if i == a.len() && i == b.len() {
        assert(a@ =~= a@.subrange(0, i as int));
        assert(b@ =~= b@.subrange(0, i as int));
        0
    } else if i == a.len() {
        assert(sa.len() == 0 && sb.len() > 0);
        -1
    } else if i == b.len() {
        assert(sb.len() == 0 && sa.len() > 0);
        1
    } else if a[i] < b[i] {
        assert(sa[0] < sb[0]);
        -1
    } else {
        assert(sa[0] > sb[0]);
        1
    }
}

// ---------------------------------------------------------------------------
// The exported playlist
// ---------------------------------------------------------------------------

/// The two lines of one exported address: `#EXTINF:-1,NAME [SOURCE]`, then the URL.
pub open spec fn export_entry(item: PlayItem) -> Seq<char> {
    "#EXTINF:-1,"@ + item.channel_name@ + " ["@ + item.source@ + "]\n"@ + item.url@ + "\n"@
}

/// The entries of the items named `name`, in the items' order.
pub open spec fn entries_named(items: Seq<PlayItem>, name: Seq<char>) -> Seq<char>
    decreases items.len(),
{
    if items.len() == 0 {
        seq![]
    } else {
        entries_named(items.drop_last(), name) + if items.last().channel_name@ == name {
            export_entry(items.last())
        } else {
            seq![]
        }
    }
}

/// The entries of each group of `groups` in turn.
pub open spec fn grouped_entries(items: Seq<PlayItem>, groups: Seq<Seq<char>>) -> Seq<char>
    decreases groups.len(),
{
    if groups.len() == 0 {
        seq![]
    } else {
        grouped_entries(items, groups.drop_last()) + entries_named(items, groups.last())
    }
}

/// `groups` lists the channel names of the first `n` items, each once, in
/// ascending order.
pub open spec fn is_channel_index_upto(items: Seq<PlayItem>, groups: Seq<Seq<char>>, n: int) -> bool {
    &&& forall|a: int, b: int| 0 <= a < b < groups.len() ==> lex_lt(#[trigger] groups[a], #[trigger] groups[b])
    &&& forall|a: int| #![trigger groups[a]] 0 <= a < groups.len() ==> exists|k: int| 0 <= k < n && groups[a] == #[trigger] items[k].channel_name@
    &&& forall|k: int| 0 <= k < n ==> groups.contains(#[trigger] items[k].channel_name@)
}

/// `groups` lists the channel names of `items`, each once, in ascending order.
pub open spec fn is_channel_index(items: Seq<PlayItem>, groups: Seq<Seq<char>>) -> bool {
    is_channel_index_upto(items, groups, items.len() as int)
}

/// The export of `items`: the `#EXTM3U` header, then for each channel name
/// in ascending order the entries of that name in their original order.
pub open spec fn is_m3u8_export(items: Seq<PlayItem>, text: Seq<char>) -> bool {
    exists|groups: Seq<Seq<char>>|
        is_channel_index(items, groups) && text == "#EXTM3U\n"@ + grouped_entries(items, groups)
}

/// Two strictly ascending lists of the same names are the same list.
proof fn lemma_sorted_unique(g1: Seq<Seq<char>>, g2: Seq<Seq<char>>)
    requires
        forall|a: int, b: int| 0 <= a < b < g1.len() ==> lex_lt(#[trigger] g1[a], #[trigger] g1[b]),
        forall|a: int, b: int| 0 <= a < b < g2.len() ==> lex_lt(#[trigger] g2[a], #[trigger] g2[b]),
        forall|x: Seq<char>| g1.contains(x) <==> g2.contains(x),
    ensures
        g1 == g2,
    decreases g1.len(),
{
    if g1.len() == 0 {
        if g2.len() > 0 {
            assert(g2.contains(g2[0]));
        }
        assert(g1 =~= g2);
    } else {
        assert(g1.contains(g1[0]));
        assert(g2.contains(g1[0]));
        let j = choose|j: int| 0 <= j < g2.len() && g2[j] == g1[0];
        assert(g2.contains(g2[0]));
        assert(g1.contains(g2[0]));
        let i = choose|i: int| 0 <= i < g1.len() && g1[i] == g2[0];
        if j > 0 {
            assert(lex_lt(g2[0], g2[j]));
            if i == 0 {
                lemma_lex_irreflexive(g1[0]);
            } else {
                assert(lex_lt(g1[0], g1[i]));
                lemma_lex_total(g1[0], g2[0]);
            }
            assert(false);
        }
        let t1 = g1.drop_first();
        let t2 = g2.drop_first();
        assert forall|x: Seq<char>| t1.contains(x) implies t2.contains(x) by {
            let a = choose|a: int| 0 <= a < t1.len() && t1[a] == x;
            assert(g1[a + 1] == x);
            assert(lex_lt(g1[0], g1[a + 1]));
            assert(g1.contains(x));
            let b = choose|b: int| 0 <= b < g2.len() && g2[b] == x;
            if b == 0 {
                lemma_lex_irreflexive(x);
            }
            assert(t2[b - 1] == x);
        }
        assert forall|x: Seq<char>| t2.contains(x) implies t1.contains(x) by {
            let b = choose|b: int| 0 <= b < t2.len() && t2[b] == x;
            assert(g2[b + 1] == x);
            assert(lex_lt(g2[0], g2[b + 1]));
            assert(g2.contains(x));
            let a = choose|a: int| 0 <= a < g1.len() && g1[a] == x;
            if a == 0 {
                lemma_lex_irreflexive(x);
            }
            assert(t1[a - 1] == x);
        }
        assert forall|a: int, b: int| 0 <= a < b < t1.len() implies lex_lt(#[trigger] t1[a], #[trigger] t1[b]) by {
            assert(lex_lt(g1[a + 1], g1[b + 1]));
        }
        assert forall|a: int, b: int| 0 <= a < b < t2.len() implies lex_lt(#[trigger] t2[a], #[trigger] t2[b]) by {
            assert(lex_lt(g2[a + 1], g2[b + 1]));
        }
        lemma_sorted_unique(t1, t2);
        assert(g1 =~= g2) by {
            assert forall|k: int| 0 <= k < g1.len() implies g1[k] == g2[k] by {
                if k > 0 {
                    assert(g1[k] == t1[k - 1]);
                    assert(g2[k] == t2[k - 1]);
                }
            }
        }
    }
}

/// The export of a list of addresses is one text: every text that
/// `is_m3u8_export` admits for the same items is the same.
pub proof fn lemma_export_unique(items: Seq<PlayItem>, t1: Seq<char>, t2: Seq<char>)
    requires
        is_m3u8_export(items, t1),
        is_m3u8_export(items, t2),
    ensures
        t1 == t2,
{
    let g1 = choose|g: Seq<Seq<char>>| is_channel_index(items, g) && t1 == "#EXTM3U\n"@ + grouped_entries(items, g);
    let g2 = choose|g: Seq<Seq<char>>| is_channel_index(items, g) && t2 == "#EXTM3U\n"@ + grouped_entries(items, g);
    assert forall|x: Seq<char>| g1.contains(x) <==> g2.contains(x) by {
        if g1.contains(x) {
            let a = choose|a: int| 0 <= a < g1.len() && g1[a] == x;
            let k = choose|k: int| 0 <= k < items.len() && g1[a] == #[trigger] items[k].channel_name@;
            assert(g2.contains(items[k].channel_name@));
        }
        if g2.contains(x) {
            let a = choose|a: int| 0 <= a < g2.len() && g2[a] == x;
            let k = choose|k: int| 0 <= k < items.len() && g2[a] == #[trigger] items[k].channel_name@;
            assert(g1.contains(items[k].channel_name@));
        }
    }
    lemma_sorted_unique(g1, g2);
}

fn entry_exec(out: &mut Vec<char>, item: &PlayItem)
    ensures
        final(out)@ == old(out)@ + export_entry(*item),
{
    append_str(out, "#EXTINF:-1,");
    append_str(out, item.channel_name.as_str());
    append_str(out, " [");
    append_str(out, item.source.as_str());
    append_str(out, "]\n");
    append_str(out, item.url.as_str());
    append_str(out, "\n");
    assert(out@ =~= old(out)@ + export_entry(*item));
}

/// The channel names of `items`, each once, ascending.
fn channel_index(items: &Vec<PlayItem>) -> (r: Vec<Vec<char>>)
    ensures
        is_channel_index(items@, r@.map_values(|g: Vec<char>| g@)),
{
    let mut groups: Vec<Vec<char>> = Vec::new();
    let mut i: usize = 0;
    while i < items.len()
        invariant
            i <= items.len(),
            is_channel_index_upto(items@, groups@.map_values(|g: Vec<char>| g@), i as int),
        decreases items.len() - i,
    {
        let ghost gv = groups@.map_values(|g: Vec<char>| g@);
        let name = chars_of(items[i].channel_name.as_str());
        let mut pos: usize = 0;
        while pos < groups.len() && lex_compare(&groups[pos], &name) < 0
            invariant
                pos <= groups.len(),
                gv == groups@.map_values(|g: Vec<char>| g@),
                forall|a: int| 0 <= a < pos ==> lex_lt(#[trigger] gv[a], name@),
            decreases groups.len() - pos,
        {
            assert(gv[pos as int] == groups@[pos as int]@);
            pos += 1;
        }
        let present = pos < groups.len() && lex_compare(&groups[pos], &name) == 0;
        if pos < groups.len() {
            assert(gv[pos as int] == groups@[pos as int]@);
        }
        if present {
            assert(gv[pos as int] == name@);
            assert(gv.contains(items@[i as int].channel_name@));
        } else {
            proof {
                if pos < gv.len() {
                    lemma_lex_total(gv[pos as int], name@);
                    assert(lex_lt(name@, gv[pos as int]));
                    assert forall|a: int| pos < a < gv.len() implies lex_lt(name@, #[trigger] gv[a]) by {
                        assert(lex_lt(gv[pos as int], gv[a]));
                        lemma_lex_transitive(name@, gv[pos as int], gv[a]);
                    }
                }
            }
            groups.insert(pos, name);
            proof {
                let nv = groups@.map_values(|g: Vec<char>| g@);
                assert(nv =~= gv.insert(pos as int, name@));
                gv.insert_ensures(pos as int, name@);
                assert forall|a: int, b: int| 0 <= a < b < nv.len() implies lex_lt(#[trigger] nv[a], #[trigger] nv[b]) by {
                    if b < pos {
                    } else if b == pos {
                    } else if a < pos {
                        assert(nv[b] == gv[b - 1]);
                    } else if a == pos {
                        assert(nv[b] == gv[b - 1]);
                    } else {
                        assert(nv[a] == gv[a - 1]);
                        assert(nv[b] == gv[b - 1]);
                    }
                }
                assert forall|a: int| #![trigger nv[a]] 0 <= a < nv.len() implies exists|k: int| 0 <= k < i + 1 && nv[a] == #[trigger] items@[k].channel_name@ by {
                    if a < pos {
                        let k = choose|k: int| 0 <= k < i && gv[a] == #[trigger] items@[k].channel_name@;
                        assert(nv[a] == items@[k].channel_name@);
                    } else if a == pos {
                        assert(nv[a] == items@[i as int].channel_name@);
                    } else {
                        assert(nv[a] == gv[a - 1]);
                        let k = choose|k: int| 0 <= k < i && gv[a - 1] == #[trigger] items@[k].channel_name@;
                        assert(nv[a] == items@[k].channel_name@);
                    }
                }
                assert forall|k: int| 0 <= k < i + 1 implies nv.contains(#[trigger] items@[k].channel_name@) by {
                    if k == i {
                        assert(nv[pos as int] == items@[k].channel_name@);
                    } else {
                        assert(gv.contains(items@[k].channel_name@));
                        let a = choose|a: int| 0 <= a < gv.len() && gv[a] == items@[k].channel_name@;
                        if a < pos {
                            assert(nv[a] == gv[a]);
                        } else {
                            assert(nv[a + 1] == gv[a]);
                        }
                    }
                }
            }
        }
        i += 1;
    }
    groups
}

/// The M3U8 text of the exported addresses.
pub fn render_m3u8_playlist(items: &Vec<PlayItem>) -> (r: String)
    ensures
        is_m3u8_export(items@, r@),
{
    let groups = channel_index(items);
    let ghost gv = groups@.map_values(|g: Vec<char>| g@);
    let mut out = chars_of("#EXTM3U\n");
    let ghost header = out@;
    let mut gi: usize = 0;
    while gi < groups.len()
        invariant
            gi <= groups.len(),
            gv == groups@.map_values(|g: Vec<char>| g@),
            out@ == header + grouped_entries(items@, gv.subrange(0, gi as int)),
        decreases groups.len() - gi,
    {
        let ghost start = out@;
        assert(gv[gi as int] == groups@[gi as int]@);
        let mut k: usize = 0;
        while k < items.len()
            invariant
                k <= items.len(),
                gi < groups.len(),
                gv == groups@.map_values(|g: Vec<char>| g@),
                out@ == start + entries_named(items@.subrange(0, k as int), gv[gi as int]),
            decreases items.len() - k,
        {
            let ghost prefix = items@.subrange(0, k as int);
            assert(items@.subrange(0, k + 1).drop_last() =~= prefix);
            let name = chars_of(items[k].channel_name.as_str());
            if lex_compare(&name, &groups[gi]) == 0 {
                entry_exec(&mut out, &items[k]);
            }
            k += 1;
        }
        assert(items@.subrange(0, items.len() as int) =~= items@);
        assert(gv.subrange(0, gi + 1).drop_last() =~= gv.subrange(0, gi as int));
        gi += 1;
    }
    assert(gv.subrange(0, groups.len() as int) =~= gv);
    string_of(&out)
}

} // verus!
