//! Call sites: one 68-byte record per callee name that the call-site query
//! captures.

use vstd::prelude::*;
use vstd::utf8::encode_utf8;
use crate::capture::{all_captures, matches_ordered, matches_within, Capture, MatchData};
use crate::layout::{
    block_at, blocks_written, le32, le32_bytes, le32_value, lemma_le32_roundtrip,
    lemma_blocks_written_next, lemma_blocks_written_none, write_bytes,
};
use crate::text::{is_white_space, lemma_trim_chars_ends, node_text, text_of, trim, trim_chars};

verus! {

/// Bytes in one call-site record.
pub const SITE_WIDTH: usize = 68;

/// Bytes of a callee name that a record holds at most.
pub const SITE_NAME_MAX: usize = 63;

/// A call site to be recorded: where its callee capture starts, and the
/// callee's name.
pub struct SiteEntry {
    pub offset: u32,
    pub name: Seq<char>,
}

/// The call sites of the captures of one match: each capture whose text is
/// valid UTF-8 and is not empty once trimmed.
pub open spec fn sites_of(caps: Seq<Capture>, src: Seq<u8>) -> Seq<SiteEntry>
    decreases caps.len(),
{
    if caps.len() == 0 {
        seq![]
    } else {
        let prev = sites_of(caps.drop_last(), src);
        let c = caps.last();
        match text_of(src, c.start as int, c.end as int) {
            Some(t) => if trim_chars(t).len() > 0 {
                prev.push(SiteEntry { offset: c.start as u32, name: trim_chars(t) })
            } else {
                prev
            },
            None => prev,
        }
    }
}

/// The call sites that are recorded: those of each match in turn, where a
/// match is read only while fewer than `max` sites have been found before
/// it. A match read while under the limit contributes all of its sites, so
/// the result may pass `max`.
pub open spec fn call_site_entries(ms: Seq<MatchData>, src: Seq<u8>, max: nat) -> Seq<SiteEntry>
    decreases ms.len(),
{
    if ms.len() == 0 {
        seq![]
    } else {
        let prev = call_site_entries(ms.drop_last(), src, max);
        if prev.len() >= max {
            prev
        } else {
            prev + sites_of(ms.last().captures@, src)
        }
    }
}

/// How many name bytes a record holds: at most 63.
pub open spec fn site_name_len(name_bytes: Seq<u8>) -> int {
    if name_bytes.len() < 63 {
        name_bytes.len() as int
    } else {
        63
    }
}

/// The record of a call site, over a block that held `old`: the offset as
/// a little-endian `u32`, the UTF-8 name cut to 63 bytes, a zero byte, and
/// the bytes after it left as they were.
pub open spec fn site_block(e: SiteEntry, old: Seq<u8>) -> Seq<u8> {
    let nb = encode_utf8(e.name);
    let n = site_name_len(nb);
    le32(e.offset) + nb.subrange(0, n) + seq![0u8] + old.subrange(5 + n, 68)
}

/// Reading a call-site record back gives the offset, the first bytes of
/// the UTF-8 name (all of them when there are fewer than 63), then a zero
/// byte, and leaves the remaining bytes of the block as they were.
pub proof fn lemma_site_block_fields(e: SiteEntry, old: Seq<u8>)
    requires
        old.len() == 68,
    ensures
        ({
            let b = site_block(e, old);
            let nb = encode_utf8(e.name);
            let n = site_name_len(nb);
            &&& b.len() == 68
            &&& le32_value(b.subrange(0, 4)) == e.offset
            &&& b.subrange(4, 4 + n) == nb.subrange(0, n)
            &&& (nb.len() < 63 ==> n == nb.len())
            &&& b[4 + n] == 0
            &&& b.subrange(5 + n, 68) == old.subrange(5 + n, 68)
        }),
{
    let b = site_block(e, old);
    let nb = encode_utf8(e.name);
    let n = site_name_len(nb);
    lemma_le32_roundtrip(e.offset);
    assert(b.subrange(0, 4) =~= le32(e.offset));
    assert(b.subrange(4, 4 + n) =~= nb.subrange(0, n));
    assert(b.subrange(5 + n, 68) =~= old.subrange(5 + n, 68));
}

/// Every call site of a match has a name that is not empty and neither
/// begins nor ends with white space.
pub proof fn lemma_sites_trimmed(caps: Seq<Capture>, src: Seq<u8>)
    ensures
        forall|k: int|
            0 <= k < sites_of(caps, src).len() ==> {
                let nm = (#[trigger] sites_of(caps, src)[k]).name;
                &&& nm.len() > 0
                &&& !is_white_space(nm[0])
                &&& !is_white_space(nm.last())
            },
    decreases caps.len(),
{
    if caps.len() > 0 {
        lemma_sites_trimmed(caps.drop_last(), src);
        let prev = sites_of(caps.drop_last(), src);
        let c = caps.last();
        match text_of(src, c.start as int, c.end as int) {
            Some(t) => {
                lemma_trim_chars_ends(t);
                if trim_chars(t).len() > 0 {
                    let e = SiteEntry { offset: c.start as u32, name: trim_chars(t) };
                    assert forall|k: int| 0 <= k < prev.len() implies #[trigger] prev.push(e)[k]
                        == prev[k] by {}
                }
            },
            None => {},
        }
    }
}

/// Every recorded call-site name is not empty and neither begins nor ends
/// with white space.
pub proof fn lemma_call_site_names_trimmed(ms: Seq<MatchData>, src: Seq<u8>, max: nat)
    ensures
        forall|k: int|
            0 <= k < call_site_entries(ms, src, max).len() ==> {
                let nm = (#[trigger] call_site_entries(ms, src, max)[k]).name;
                &&& nm.len() > 0
                &&& !is_white_space(nm[0])
                &&& !is_white_space(nm.last())
            },
    decreases ms.len(),
{
    if ms.len() > 0 {
        lemma_call_site_names_trimmed(ms.drop_last(), src, max);
        lemma_sites_trimmed(ms.last().captures@, src);
        let prev = call_site_entries(ms.drop_last(), src, max);
        let cur = sites_of(ms.last().captures@, src);
        if prev.len() < max {
            assert forall|k: int| prev.len() <= k < prev.len() + cur.len() implies
                #[trigger] (prev + cur)[k] == cur[k - prev.len()] by {}
        }
    }
}

/// The call sites of all matches, in order, with no limit.
pub open spec fn all_sites(ms: Seq<MatchData>, src: Seq<u8>) -> Seq<SiteEntry>
    decreases ms.len(),
{
    if ms.len() == 0 {
        seq![]
    } else {
        all_sites(ms.drop_last(), src) + sites_of(ms.last().captures@, src)
    }
}

/// When every match has one capture, the recorded call sites are the first
/// `max` of all call sites (all of them when there are fewer).
pub proof fn lemma_call_site_entries_first(ms: Seq<MatchData>, src: Seq<u8>, max: nat)
    requires
        forall|i: int| 0 <= i < ms.len() ==> (#[trigger] ms[i]).captures@.len() == 1,
    ensures
        call_site_entries(ms, src, max) == all_sites(ms, src).take(
            if all_sites(ms, src).len() <= max {
                all_sites(ms, src).len() as int
            } else {
                max as int
            },
        ),
    decreases ms.len(),
{
    if ms.len() == 0 {
        assert(all_sites(ms, src).take(0) =~= Seq::<SiteEntry>::empty());
    } else {
        let init = ms.drop_last();
        assert forall|i: int| 0 <= i < init.len() implies (#[trigger] init[i]).captures@.len() == 1 by {
            assert(init[i] == ms[i]);
        }
        lemma_call_site_entries_first(init, src, max);
        assert(ms[ms.len() - 1].captures@.len() == 1);
        lemma_sites_len(ms.last().captures@, src);
        let prev = call_site_entries(init, src, max);
        let a = all_sites(init, src);
        let last = sites_of(ms.last().captures@, src);
        if prev.len() >= max {
            assert(all_sites(ms, src).take(max as int) =~= a.take(max as int));
        } else {
            assert(prev =~= a);
            assert(all_sites(ms, src).take(all_sites(ms, src).len() as int) =~= all_sites(ms, src));
        }
    }
}

/// A match has no more call sites than captures.
pub proof fn lemma_sites_len(caps: Seq<Capture>, src: Seq<u8>)
    ensures
        sites_of(caps, src).len() <= caps.len(),
    decreases caps.len(),
{
    if caps.len() > 0 {
        lemma_sites_len(caps.drop_last(), src);
    }
}

/// When every match has one capture, at most `max` call sites are recorded.
pub proof fn lemma_call_site_entries_bounded(ms: Seq<MatchData>, src: Seq<u8>, max: nat)
    requires
        forall|i: int| 0 <= i < ms.len() ==> (#[trigger] ms[i]).captures@.len() == 1,
    ensures
        call_site_entries(ms, src, max).len() <= max,
    decreases ms.len(),
{
    if ms.len() > 0 {
        let init = ms.drop_last();
        assert forall|i: int| 0 <= i < init.len() implies (#[trigger] init[i]).captures@.len() == 1 by {
            assert(init[i] == ms[i]);
        }
        lemma_call_site_entries_bounded(init, src, max);
        assert(ms[ms.len() - 1].captures@.len() == 1);
        lemma_sites_len(ms.last().captures@, src);
    }
}

/// The sites of the first `j` captures are the first sites of all of them.
pub proof fn lemma_sites_prefix(caps: Seq<Capture>, src: Seq<u8>, j: int)
    requires
        0 <= j <= caps.len(),
    ensures
        sites_of(caps.take(j), src).len() <= sites_of(caps, src).len(),
        forall|k: int|
            0 <= k < sites_of(caps.take(j), src).len() ==> #[trigger] sites_of(caps.take(j), src)[k]
                == sites_of(caps, src)[k],
    decreases caps.len(),
{
    if j == caps.len() {
        assert(caps.take(j) =~= caps);
    } else {
        assert(caps.take(j) =~= caps.drop_last().take(j));
        lemma_sites_prefix(caps.drop_last(), src, j);
    }
}

/// The sites recorded from the first `i` matches are the first of those
/// recorded from all of them.
pub proof fn lemma_call_site_entries_prefix(ms: Seq<MatchData>, src: Seq<u8>, max: nat, i: int)
    requires
        0 <= i <= ms.len(),
    ensures
        call_site_entries(ms.take(i), src, max).len() <= call_site_entries(ms, src, max).len(),
        forall|k: int|
            0 <= k < call_site_entries(ms.take(i), src, max).len() ==> #[trigger] call_site_entries(
                ms.take(i),
                src,
                max,
            )[k] == call_site_entries(ms, src, max)[k],
    decreases ms.len(),
{
    if i == ms.len() {
        assert(ms.take(i) =~= ms);
    } else {
        assert(ms.take(i) =~= ms.drop_last().take(i));
        lemma_call_site_entries_prefix(ms.drop_last(), src, max, i);
    }
}

/// Once `max` sites are found, later matches add none.
pub proof fn lemma_call_site_entries_full(ms: Seq<MatchData>, src: Seq<u8>, max: nat, i: int)
    requires
        0 <= i <= ms.len(),
        call_site_entries(ms.take(i), src, max).len() >= max,
    ensures
        call_site_entries(ms, src, max) == call_site_entries(ms.take(i), src, max),
    decreases ms.len(),
{
    if i == ms.len() {
        assert(ms.take(i) =~= ms);
    } else {
        assert(ms.take(i) =~= ms.drop_last().take(i));
        lemma_call_site_entries_full(ms.drop_last(), src, max, i);
    }
}

/// Builds the 68 bytes of a call-site record over the block `old`.
fn site_record(offset: u32, name: &str, old: &[u8]) -> (rec: Vec<u8>)
    requires
        old@.len() == 68,
    ensures
        rec@ == site_block(SiteEntry { offset, name: name@ }, old@),
{
    let nb = name.as_bytes();
    let n: usize = if nb.len() < 63 {
        nb.len()
    } else {
        63
    };
    let mut rec = le32_bytes(offset);
    let ghost head = rec@;
    let mut i: usize = 0;
    while i < n
        invariant
            n <= nb@.len(),
            n <= 63,
            i <= n,
            rec@ == head + nb@.subrange(0, i as int),
        decreases n - i,
    {
        rec.push(nb[i]);
        assert(rec@ =~= head + nb@.subrange(0, i + 1));
        i = i + 1;
    }
    rec.push(0u8);
    let ghost mid = rec@;
    let mut j: usize = 5 + n;
    while j < 68
        invariant
            5 + n <= j <= 68,
            old@.len() == 68,
            rec@ == mid + old@.subrange(5 + n, j as int),
        decreases 68 - j,
    {
        rec.push(old[j]);
        assert(rec@ =~= mid + old@.subrange(5 + n, j + 1));
        j = j + 1;
    }
    proof {
        assert(nb@ == encode_utf8(name@));
        assert(n == site_name_len(nb@));
        assert(rec@ =~= site_block(SiteEntry { offset, name: name@ }, old@));
    }
    rec
}

/// The trimmed text of a capture, when its bytes are valid UTF-8.
fn capture_name<'a>(src: &'a [u8], c: Capture) -> (r: Option<&'a str>)
    requires
        c.start <= c.end <= src@.len(),
    ensures
        r is Some <==> text_of(src@, c.start as int, c.end as int) is Some,
        r matches Some(t) ==> t@ == trim_chars(text_of(src@, c.start as int, c.end as int)->0),
{
    match node_text(src, c.start, c.end) {
        Some(t) => Some(trim(t)),
        None => None,
    }
}

/// Writes the record of each recorded call site (see `call_site_entries`),
/// in order, into consecutive 68-byte blocks of `out`; returns how many it
/// wrote.
pub fn write_call_sites(
    ms: &Vec<MatchData>,
    src: &[u8],
    max_sites: usize,
    out: &mut Vec<u8>,
) -> (count: usize)
    requires
        matches_ordered(ms@),
        matches_within(ms@, src@.len()),
        68 * call_site_entries(ms@, src@, max_sites as nat).len() <= old(out)@.len(),
    ensures
        count == call_site_entries(ms@, src@, max_sites as nat).len(),
        blocks_written(
            old(out)@,
            final(out)@,
            68,
            count as nat,
            |k: int, b: Seq<u8>| site_block(call_site_entries(ms@, src@, max_sites as nat)[k], b),
        ),
{
    let ghost start = out@;
    let ghost all = call_site_entries(ms@, src@, max_sites as nat);
    let ghost block = |k: int, b: Seq<u8>| site_block(call_site_entries(ms@, src@, max_sites as nat)[k], b);
    let out_len = out.len();
    let mut count: usize = 0;
    let mut i: usize = 0;
    proof {
        lemma_blocks_written_none(start, 68, block);
        assert(ms@.take(0) =~= Seq::<MatchData>::empty());
        assert(ms@.take(ms@.len() as int) =~= ms@);
    }
    while i < ms.len()
        invariant
            i <= ms@.len(),
            ms@.take(ms@.len() as int) == ms@,
            start == old(out)@,
            matches_ordered(ms@),
            matches_within(ms@, src@.len()),
            out_len == start.len(),
            all == call_site_entries(ms@, src@, max_sites as nat),
            68 * all.len() <= start.len(),
            block == (|k: int, b: Seq<u8>| site_block(call_site_entries(ms@, src@, max_sites as nat)[k], b)),
            count == call_site_entries(ms@.take(i as int), src@, max_sites as nat).len(),
            blocks_written(start, out@, 68, count as nat, block),
        decreases ms.len() - i,
    {
        proof {
            lemma_call_site_entries_prefix(ms@, src@, max_sites as nat, i as int);
        }
        if count >= max_sites {
            proof {
                lemma_call_site_entries_full(ms@, src@, max_sites as nat, i as int);
            }
            return count;
        }
        let caps = &ms[i].captures;
        let ghost prev = call_site_entries(ms@.take(i as int), src@, max_sites as nat);
        proof {
            assert(caps@.take(0) =~= Seq::<Capture>::empty());
            assert(ms@.take(i + 1).drop_last() =~= ms@.take(i as int));
            assert(ms@.take(i + 1).last() == ms@[i as int]);
            assert(call_site_entries(ms@.take(i + 1), src@, max_sites as nat) == prev + sites_of(
                caps@,
                src@,
            ));
            lemma_call_site_entries_prefix(ms@, src@, max_sites as nat, i + 1);
            let now = call_site_entries(ms@.take(i + 1), src@, max_sites as nat);
            assert forall|k: int|
                0 <= k < sites_of(caps@, src@).len() implies #[trigger] sites_of(caps@, src@)[k]
                == all[prev.len() + k] by {
                assert(now[prev.len() + k] == sites_of(caps@, src@)[k]);
            }
        }
        let mut j: usize = 0;
        while j < caps.len()
            invariant
                i < ms@.len(),
                caps@ == ms@[i as int].captures@,
                matches_ordered(ms@),
                matches_within(ms@, src@.len()),
                out_len == start.len(),
                all == call_site_entries(ms@, src@, max_sites as nat),
                68 * all.len() <= start.len(),
                block == (|k: int, b: Seq<u8>| site_block(call_site_entries(ms@, src@, max_sites as nat)[k], b)),
                prev == call_site_entries(ms@.take(i as int), src@, max_sites as nat),
                prev.len() + sites_of(caps@, src@).len() <= all.len(),
                forall|k: int|
                    0 <= k < sites_of(caps@, src@).len() ==> #[trigger] sites_of(caps@, src@)[k]
                        == all[prev.len() + k],
                j <= caps@.len(),
                count == prev.len() + sites_of(caps@.take(j as int), src@).len(),
                blocks_written(start, out@, 68, count as nat, block),
            decreases caps.len() - j,
        {
            let c = caps[j];
            assert(caps@.take(j + 1).drop_last() =~= caps@.take(j as int));
            assert(caps@.take(j + 1).last() == c);
            assert(c.start <= c.end && c.end <= src@.len());
            match capture_name(src, c) {
                Some(name) => {
                    if !name.is_empty() {
                        let ghost e = SiteEntry { offset: c.start as u32, name: name@ };
                        proof {
                            assert(sites_of(caps@.take(j + 1), src@) == sites_of(
                                caps@.take(j as int),
                                src@,
                            ).push(e));
                            lemma_sites_prefix(caps@, src@, j + 1);
                            assert(sites_of(caps@.take(j + 1), src@)[sites_of(caps@.take(j as int), src@).len() as int] == e);
                            assert(all[count as int] == e);
                        }
                        let base = count * 68;
                        let old_block = &out.as_slice()[base..base + 68];
                        assert(old_block@ =~= block_at(start, count as int, 68));
                        let rec = site_record(c.start as u32, name, old_block);
                        proof {
                            lemma_blocks_written_next(start, out@, 68, count as nat, block, rec@);
                        }
                        write_bytes(out, base, &rec);
                        count = count + 1;
                    }
                },
                None => {},
            }
            j = j + 1;
        }
        proof {
            assert(caps@.take(caps@.len() as int) =~= caps@);
        }
        i = i + 1;
    }
    count
}

/// The call sites of a list of captures are exactly those captures whose
/// text is valid UTF-8 and not empty once trimmed, in order, each placed at
/// its capture's start byte and named by its trimmed text.
pub proof fn lemma_sites_are_named_captures(caps: Seq<Capture>, src: Seq<u8>)
    ensures
        sites_of(caps, src) == caps.filter(
            |c: Capture|
                text_of(src, c.start as int, c.end as int) is Some && trim_chars(
                    text_of(src, c.start as int, c.end as int)->0,
                ).len() > 0,
        ).map_values(
            |c: Capture|
                (SiteEntry {
                    offset: c.start as u32,
                    name: trim_chars(text_of(src, c.start as int, c.end as int)->0),
                }),
        ),
    decreases caps.len(),
{
    reveal(Seq::filter);
    let keep = |c: Capture|
        text_of(src, c.start as int, c.end as int) is Some && trim_chars(
            text_of(src, c.start as int, c.end as int)->0,
        ).len() > 0;
    let site = |c: Capture|
        (SiteEntry {
            offset: c.start as u32,
            name: trim_chars(text_of(src, c.start as int, c.end as int)->0),
        });
    if caps.len() == 0 {
        assert(caps.filter(keep).map_values(site) =~= Seq::<SiteEntry>::empty());
    } else {
        lemma_sites_are_named_captures(caps.drop_last(), src);
        let sub = caps.drop_last().filter(keep);
        if keep(caps.last()) {
            assert(sub.push(caps.last()).map_values(site) =~= sub.map_values(site).push(
                site(caps.last()),
            ));
        }
    }
}

/// All call sites of a list of matches are exactly the captures, over all
/// matches in order, whose text is valid UTF-8 and not empty once trimmed,
/// each placed at its capture's start byte and named by its trimmed text.
pub proof fn lemma_all_sites_are_named_captures(ms: Seq<MatchData>, src: Seq<u8>)
    ensures
        all_sites(ms, src) == all_captures(ms).filter(
            |c: Capture|
                text_of(src, c.start as int, c.end as int) is Some && trim_chars(
                    text_of(src, c.start as int, c.end as int)->0,
                ).len() > 0,
        ).map_values(
            |c: Capture|
                (SiteEntry {
                    offset: c.start as u32,
                    name: trim_chars(text_of(src, c.start as int, c.end as int)->0),
                }),
        ),
    decreases ms.len(),
{
    let keep = |c: Capture|
        text_of(src, c.start as int, c.end as int) is Some && trim_chars(
            text_of(src, c.start as int, c.end as int)->0,
        ).len() > 0;
    let site = |c: Capture|
        (SiteEntry {
            offset: c.start as u32,
            name: trim_chars(text_of(src, c.start as int, c.end as int)->0),
        });
    if ms.len() == 0 {
        reveal(Seq::filter);
        assert(all_captures(ms).filter(keep).map_values(site) =~= Seq::<SiteEntry>::empty());
    } else {
        let init = ms.drop_last();
        let last = ms.last().captures@;
        lemma_all_sites_are_named_captures(init, src);
        lemma_sites_are_named_captures(last, src);
        Seq::filter_distributes_over_add(all_captures(init), last, keep);
        let a = all_captures(init).filter(keep);
        let b = last.filter(keep);
        assert((a + b).map_values(site) =~= a.map_values(site) + b.map_values(site));
    }
}

} // verus!
