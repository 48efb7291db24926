//! Syntax-highlighting spans: one 12-byte record per capture.

use vstd::prelude::*;
use crate::capture::{
    all_captures, capture_wf, lemma_all_captures_prefix, lemma_all_captures_step, matches_wf,
    Capture, MatchData,
};
use crate::layout::{
    blocks_written, le32, le32_bytes, le32_value, lemma_le32_roundtrip,
    lemma_blocks_written_next, lemma_blocks_written_none, write_bytes,
};
use crate::scope::{scope_code, scope_id_for};

verus! {

/// Bytes in one span record.
pub const SPAN_WIDTH: usize = 12;

/// The capture names of a query, as character sequences.
pub open spec fn names_view(names: Seq<String>) -> Seq<Seq<char>> {
    names.map_values(|s: String| s@)
}

/// The span record of a capture: its start offset and its length, each as
/// a little-endian `u32` (truncated to 32 bits), then the scope code of its
/// capture name and three zero bytes.
pub open spec fn span_record(c: Capture, names: Seq<Seq<char>>) -> Seq<u8> {
    le32(c.start as u32) + le32((c.end - c.start) as u32) + seq![
        scope_code(names[c.index as int]),
        0u8,
        0u8,
        0u8,
    ]
}

/// Reading a span record back gives the capture's start offset and length
/// (each truncated to 32 bits), the scope code of its name, and three zero
/// bytes.
pub proof fn lemma_span_record_fields(c: Capture, names: Seq<Seq<char>>)
    ensures
        span_record(c, names).len() == 12,
        le32_value(span_record(c, names).subrange(0, 4)) == c.start as u32,
        le32_value(span_record(c, names).subrange(4, 8)) == (c.end - c.start) as u32,
        span_record(c, names)[8] == scope_code(names[c.index as int]),
        span_record(c, names).subrange(9, 12) == seq![0u8, 0u8, 0u8],
{
    let r = span_record(c, names);
    lemma_le32_roundtrip(c.start as u32);
    lemma_le32_roundtrip((c.end - c.start) as u32);
    assert(r.subrange(0, 4) =~= le32(c.start as u32));
    assert(r.subrange(4, 8) =~= le32((c.end - c.start) as u32));
    assert(r.subrange(9, 12) =~= seq![0u8, 0u8, 0u8]);
}

/// The smaller of two numbers.
pub open spec fn min_nat(a: nat, b: nat) -> nat {
    if a <= b {
        a
    } else {
        b
    }
}

/// Writes the span record of each capture of `ms`, match by match and in
/// capture order, into consecutive 12-byte blocks of `out`, stopping after
/// `max_spans` records; returns how many it wrote.
pub fn write_spans(
    ms: &Vec<MatchData>,
    names: &Vec<String>,
    max_spans: usize,
    out: &mut Vec<u8>,
) -> (count: usize)
    requires
        matches_wf(ms@, names@.len()),
        12 * max_spans <= old(out)@.len(),
    ensures
        count == min_nat(all_captures(ms@).len(), max_spans as nat),
        blocks_written(
            old(out)@,
            final(out)@,
            12,
            count as nat,
            |k: int, b: Seq<u8>| span_record(all_captures(ms@)[k], names_view(names@)),
        ),
{
    let ghost start = out@;
    let out_len = out.len();
    let ghost block = |k: int, b: Seq<u8>| span_record(all_captures(ms@)[k], names_view(names@));
    let ghost all = all_captures(ms@);
    let mut count: usize = 0;
    let mut i: usize = 0;
    proof {
        lemma_blocks_written_none(start, 12, block);
        assert(ms@.take(0) =~= Seq::<MatchData>::empty());
    }
    while i < ms.len()
        invariant
            i <= ms@.len(),
            matches_wf(ms@, names@.len()),
            12 * max_spans <= start.len(),
            out_len == start.len(),
            all == all_captures(ms@),
            block == (|k: int, b: Seq<u8>| span_record(all_captures(ms@)[k], names_view(names@))),
            count == min_nat(all_captures(ms@.take(i as int)).len(), max_spans as nat),
            blocks_written(start, out@, 12, count as nat, block),
        decreases ms.len() - i,
    {
        let caps = &ms[i].captures;
        let ghost pre = all_captures(ms@.take(i as int));
        proof {
            lemma_all_captures_step(ms@, i as int);
            lemma_all_captures_prefix(ms@, i + 1);
        }
        let mut j: usize = 0;
        while j < caps.len()
            invariant
                i < ms@.len(),
                caps@ == ms@[i as int].captures@,
                matches_wf(ms@, names@.len()),
                12 * max_spans <= start.len(),
                out_len == start.len(),
                all == all_captures(ms@),
                block == (|k: int, b: Seq<u8>| span_record(all_captures(ms@)[k], names_view(names@))),
                pre == all_captures(ms@.take(i as int)),
                all_captures(ms@.take(i + 1)) == pre + caps@,
                all_captures(ms@.take(i + 1)).len() <= all.len(),
                forall|k: int|
                    0 <= k < all_captures(ms@.take(i + 1)).len() ==> #[trigger] all_captures(
                        ms@.take(i + 1),
                    )[k] == all[k],
                j <= caps@.len(),
                count == min_nat((pre.len() + j) as nat, max_spans as nat),
                blocks_written(start, out@, 12, count as nat, block),
            ensures
                count == min_nat((pre.len() + caps@.len()) as nat, max_spans as nat),
                blocks_written(start, out@, 12, count as nat, block),
            decreases caps.len() - j,
        {
            if count >= max_spans {
                break;
            }
            let c = caps[j];
            assert(capture_wf(ms@[i as int].captures@[j as int], names@.len()));
            let scope = scope_id_for(names[c.index as usize].as_str());
            let off = c.start as u32;
            let len = (c.end - c.start) as u32;
            let mut rec = le32_bytes(off);
            let mut len_bytes = le32_bytes(len);
            rec.append(&mut len_bytes);
            rec.push(scope);
            rec.push(0u8);
            rec.push(0u8);
            rec.push(0u8);
            proof {
                assert(all_captures(ms@.take(i + 1))[pre.len() + j] == c);
                assert(all[pre.len() + j] == c);
                assert(count == pre.len() + j);
                assert(names_view(names@)[c.index as int] == names@[c.index as int]@);
                assert(rec@ =~= span_record(c, names_view(names@)));
                lemma_blocks_written_next(start, out@, 12, count as nat, block, rec@);
            }
            write_bytes(out, count * 12, &rec);
            count = count + 1;
            j = j + 1;
        }
        i = i + 1;
    }
    proof {
        assert(ms@.take(ms@.len() as int) =~= ms@);
    }
    count
}

} // verus!
