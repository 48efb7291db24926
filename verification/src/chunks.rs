//! Retrieval chunks: one 104-byte record per declaration that the retrieval
//! query matches, carrying its byte range, a label and its kind.

use vstd::prelude::*;
use vstd::string::*;
use vstd::utf8::encode_utf8;
use crate::capture::{matches_wf, matches_within, Capture, MatchData};
use crate::layout::{
    block_at, blocks_written, le32, le32_bytes, le32_value, lemma_le32_roundtrip,
    lemma_blocks_written_next, lemma_blocks_written_none, write_bytes,
};
use crate::queries::{capture_names_of, QueryKind};
use crate::scope::{kind_byte, kind_code};
use crate::spans::{min_nat, names_view};
use crate::text::{is_prefix, node_text, strip_prefix, starts_with, text_of, trim, trim_chars};

verus! {

/// Bytes in one chunk record.
pub const CHUNK_WIDTH: usize = 104;

/// Bytes of a chunk label that a record holds at most.
pub const CHUNK_LABEL_MAX: usize = 95;

/// What the captures of one match say of a chunk: the byte range and kind
/// of the last `chunk.<kind>` capture, and the trimmed text of the last
/// `name.*` capture whose text is valid UTF-8.
pub struct ChunkScan {
    pub span: Option<(u32, u32, Seq<char>)>,
    pub name: Option<Seq<char>>,
}

/// Reads the captures of one match in order, each later capture of a kind
/// overriding an earlier one.
pub open spec fn chunk_scan(caps: Seq<Capture>, names: Seq<Seq<char>>, src: Seq<u8>) -> ChunkScan
    decreases caps.len(),
{
    if caps.len() == 0 {
        ChunkScan { span: None, name: None }
    } else {
        let prev = chunk_scan(caps.drop_last(), names, src);
        let c = caps.last();
        let cn = names[c.index as int];
        if is_prefix("chunk."@, cn) {
            ChunkScan {
                span: Some(
                    (c.start as u32, (c.end - c.start) as u32, cn.skip("chunk."@.len() as int)),
                ),
                name: prev.name,
            }
        } else if is_prefix("name."@, cn) {
            match text_of(src, c.start as int, c.end as int) {
                Some(t) => ChunkScan { span: prev.span, name: Some(trim_chars(t)) },
                None => prev,
            }
        } else {
            prev
        }
    }
}

/// A chunk to be recorded: offset, length, kind and label.
pub struct ChunkEntry {
    pub offset: u32,
    pub length: u32,
    pub kind: Seq<char>,
    pub label: Seq<char>,
}

/// The label of a chunk: its kind, then a space and its name when it has one.
pub open spec fn chunk_label(kind: Seq<char>, name: Option<Seq<char>>) -> Seq<char> {
    match name {
        Some(n) => kind + seq![' '] + n,
        None => kind,
    }
}

/// The chunk of one match, when one of its captures names a chunk.
pub open spec fn chunk_of(m: MatchData, names: Seq<Seq<char>>, src: Seq<u8>) -> Option<ChunkEntry> {
    let scan = chunk_scan(m.captures@, names, src);
    match scan.span {
        Some((off, len, kind)) => Some(
            ChunkEntry { offset: off, length: len, kind, label: chunk_label(kind, scan.name) },
        ),
        None => None,
    }
}

/// The chunks of all matches, in match order.
pub open spec fn chunk_entries(ms: Seq<MatchData>, names: Seq<Seq<char>>, src: Seq<u8>) -> Seq<
    ChunkEntry,
>
    decreases ms.len(),
{
    if ms.len() == 0 {
        seq![]
    } else {
        let prev = chunk_entries(ms.drop_last(), names, src);
        match chunk_of(ms.last(), names, src) {
            Some(e) => prev.push(e),
            None => prev,
        }
    }
}

/// How many label bytes a record holds: at most 95.
pub open spec fn label_len(label_bytes: Seq<u8>) -> int {
    if label_bytes.len() < 95 {
        label_bytes.len() as int
    } else {
        95
    }
}

/// The record of a chunk, over a block that held `old`: offset and length
/// as little-endian `u32`s, the UTF-8 label cut to 95 bytes, a zero byte
/// after it when it is shorter than that, the bytes after the zero left as
/// they were, and the kind code in the last byte.
pub open spec fn chunk_block(e: ChunkEntry, old: Seq<u8>) -> Seq<u8> {
    let lb = encode_utf8(e.label);
    let n = label_len(lb);
    let head = le32(e.offset) + le32(e.length) + lb.subrange(0, n);
    if n < 95 {
        head + seq![0u8] + old.subrange(9 + n, 103) + seq![kind_code(e.kind)]
    } else {
        head + seq![kind_code(e.kind)]
    }
}

/// Reading a chunk record back gives the chunk's offset and length, the
/// first bytes of its UTF-8 label (all of them when there are fewer than
/// 95), a zero byte after the label when it is shorter than 95 bytes, and
/// the kind code in the last byte; the bytes between the zero byte and the
/// kind code keep what the block held.
pub proof fn lemma_chunk_block_fields(e: ChunkEntry, old: Seq<u8>)
    requires
        old.len() == 104,
    ensures
        ({
            let b = chunk_block(e, old);
            let lb = encode_utf8(e.label);
            let n = label_len(lb);
            &&& b.len() == 104
            &&& le32_value(b.subrange(0, 4)) == e.offset
            &&& le32_value(b.subrange(4, 8)) == e.length
            &&& b.subrange(8, 8 + n) == lb.subrange(0, n)
            &&& (lb.len() < 95 ==> n == lb.len() && b[8 + n] == 0 && b.subrange(9 + n, 103)
                == old.subrange(9 + n, 103))
            &&& b[103] == kind_code(e.kind)
        }),
{
    let b = chunk_block(e, old);
    let lb = encode_utf8(e.label);
    let n = label_len(lb);
    lemma_le32_roundtrip(e.offset);
    lemma_le32_roundtrip(e.length);
    assert(b.subrange(0, 4) =~= le32(e.offset));
    assert(b.subrange(4, 8) =~= le32(e.length));
    assert(b.subrange(8, 8 + n) =~= lb.subrange(0, n));
    if n < 95 {
        assert(b.subrange(9 + n, 103) =~= old.subrange(9 + n, 103));
    }
}

/// Builds the 104 bytes of a chunk record over the block `old`.
fn chunk_record(offset: u32, length: u32, kind: &str, label: &str, old: &[u8]) -> (rec: Vec<u8>)
    requires
        old@.len() == 104,
    ensures
        rec@ == chunk_block(
            ChunkEntry { offset, length, kind: kind@, label: label@ },
            old@,
        ),
{
    let lb = label.as_bytes();
    let n: usize = if lb.len() < 95 {
        lb.len()
    } else {
        95
    };
    let mut rec = le32_bytes(offset);
    let mut length_bytes = le32_bytes(length);
    rec.append(&mut length_bytes);
    let ghost head8 = rec@;
    let mut i: usize = 0;
    while i < n
        invariant
            n <= lb@.len(),
            n <= 95,
            i <= n,
            rec@ == head8 + lb@.subrange(0, i as int),
        decreases n - i,
    {
        rec.push(lb[i]);
        assert(rec@ =~= head8 + lb@.subrange(0, i + 1));
        i = i + 1;
    }
    if n < 95 {
        rec.push(0u8);
        let ghost mid = rec@;
        let mut j: usize = 9 + n;
        while j < 103
            invariant
                9 + n <= j <= 103,
                old@.len() == 104,
                rec@ == mid + old@.subrange(9 + n, j as int),
            decreases 103 - j,
        {
            rec.push(old[j]);
            assert(rec@ =~= mid + old@.subrange(9 + n, j + 1));
            j = j + 1;
        }
    }
    rec.push(kind_byte(kind));
    proof {
        let e = ChunkEntry { offset, length, kind: kind@, label: label@ };
        assert(lb@ == encode_utf8(label@));
        assert(n == label_len(lb@));
        assert(rec@ =~= chunk_block(e, old@));
    }
    rec
}

/// The chunks of the first `i` matches are the first chunks of all matches.
pub proof fn lemma_chunk_entries_prefix(
    ms: Seq<MatchData>,
    names: Seq<Seq<char>>,
    src: Seq<u8>,
    i: int,
)
    requires
        0 <= i <= ms.len(),
    ensures
        chunk_entries(ms.take(i), names, src).len() <= chunk_entries(ms, names, src).len(),
        forall|k: int|
            0 <= k < chunk_entries(ms.take(i), names, src).len() ==> #[trigger] chunk_entries(
                ms.take(i),
                names,
                src,
            )[k] == chunk_entries(ms, names, src)[k],
    decreases ms.len(),
{
    if i == ms.len() {
        assert(ms.take(i) =~= ms);
    } else {
        assert(ms.take(i) =~= ms.drop_last().take(i));
        lemma_chunk_entries_prefix(ms.drop_last(), names, src, i);
    }
}

/// The scan state of a match as the exec loop holds it.
pub open spec fn scan_view(span: Option<(u32, u32, &str)>, name: Option<&str>) -> ChunkScan {
    ChunkScan {
        span: match span {
            Some((o, l, k)) => Some((o, l, k@)),
            None => None,
        },
        name: match name {
            Some(n) => Some(n@),
            None => None,
        },
    }
}

/// Writes the record of each chunk that the matches name, in match order,
/// into consecutive 104-byte blocks of `out`, stopping after `max_chunks`
/// records; returns how many it wrote.
pub fn write_chunks(
    ms: &Vec<MatchData>,
    names: &Vec<String>,
    src: &[u8],
    max_chunks: usize,
    out: &mut Vec<u8>,
) -> (count: usize)
    requires
        matches_wf(ms@, names@.len()),
        matches_within(ms@, src@.len()),
        104 * max_chunks <= old(out)@.len(),
    ensures
        count == min_nat(chunk_entries(ms@, names_view(names@), src@).len(), max_chunks as nat),
        blocks_written(
            old(out)@,
            final(out)@,
            104,
            count as nat,
            |k: int, b: Seq<u8>| chunk_block(chunk_entries(ms@, names_view(names@), src@)[k], b),
        ),
{
    let ghost start = out@;
    let ghost nv = names_view(names@);
    let ghost all = chunk_entries(ms@, nv, src@);
    let ghost block = |k: int, b: Seq<u8>| chunk_block(chunk_entries(ms@, names_view(names@), src@)[k], b);
    let out_len = out.len();
    let mut count: usize = 0;
    let mut i: usize = 0;
    proof {
        lemma_blocks_written_none(start, 104, block);
        assert(ms@.take(0) =~= Seq::<MatchData>::empty());
        assert(ms@.take(ms@.len() as int) =~= ms@);
        reveal_strlit(" ");
    }
    while i < ms.len()
        invariant_except_break
            count == min_nat(chunk_entries(ms@.take(i as int), nv, src@).len(), max_chunks as nat),
        invariant
            i <= ms@.len(),
            ms@.take(ms@.len() as int) == ms@,
            matches_wf(ms@, names@.len()),
            matches_within(ms@, src@.len()),
            104 * max_chunks <= start.len(),
            out_len == start.len(),
            nv == names_view(names@),
            all == chunk_entries(ms@, nv, src@),
            block == (|k: int, b: Seq<u8>| chunk_block(chunk_entries(ms@, names_view(names@), src@)[k], b)),
            count <= max_chunks,
            count <= chunk_entries(ms@.take(i as int), nv, src@).len(),
            blocks_written(start, out@, 104, count as nat, block),
        ensures
            count == min_nat(all.len(), max_chunks as nat),
            blocks_written(start, out@, 104, count as nat, block),
        decreases ms.len() - i,
    {
        proof {
            lemma_chunk_entries_prefix(ms@, nv, src@, i as int);
        }
        if count >= max_chunks {
            break;
        }
        let caps = &ms[i].captures;
        let mut span: Option<(u32, u32, &str)> = None;
        let mut name: Option<&str> = None;
        let mut j: usize = 0;
        proof {
            assert(caps@.take(0) =~= Seq::<Capture>::empty());
        }
        while j < caps.len()
            invariant
                i < ms@.len(),
                caps@ == ms@[i as int].captures@,
                matches_wf(ms@, names@.len()),
                matches_within(ms@, src@.len()),
                nv == names_view(names@),
                j <= caps@.len(),
                scan_view(span, name) == chunk_scan(caps@.take(j as int), nv, src@),
            decreases caps.len() - j,
        {
            let c = caps[j];
            assert(caps@.take(j + 1).drop_last() =~= caps@.take(j as int));
            assert(caps@.take(j + 1).last() == c);
            let cn = names[c.index as usize].as_str();
            assert(nv[c.index as int] == cn@);
            match strip_prefix(cn, "chunk.") {
                Some(k) => {
                    span = Some((c.start as u32, (c.end - c.start) as u32, k));
                },
                None => {
                    if starts_with(cn, "name.") {
                        match node_text(src, c.start, c.end) {
                            Some(t) => {
                                name = Some(trim(t));
                            },
                            None => {},
                        }
                    }
                },
            }
            j = j + 1;
        }
        proof {
            assert(caps@.take(caps@.len() as int) =~= caps@);
            assert(ms@.take(i + 1).drop_last() =~= ms@.take(i as int));
            assert(ms@.take(i + 1).last() == ms@[i as int]);
            lemma_chunk_entries_prefix(ms@, nv, src@, i + 1);
        }
        match span {
            Some((off, len, k)) => {
                proof {
                    reveal_strlit(" ");
                }
                let mut label = String::from_str(k);
                match name {
                    Some(n) => {
                        label.append(" ");
                        label.append(n);
                    },
                    None => {},
                }
                let ghost e = ChunkEntry {
                    offset: off,
                    length: len,
                    kind: k@,
                    label: chunk_label(k@, scan_view(span, name).name),
                };
                assert(label@ =~= e.label);
                assert(chunk_of(ms@[i as int], nv, src@) == Some(e));
                let base = count * 104;
                let old_block = &out.as_slice()[base..base + 104];
                assert(old_block@ =~= block_at(start, count as int, 104));
                let rec = chunk_record(off, len, k, label.as_str(), old_block);
                proof {
                    let prev = chunk_entries(ms@.take(i as int), nv, src@);
                    assert(chunk_entries(ms@.take(i + 1), nv, src@) == prev.push(e));
                    assert(count == prev.len());
                    assert(chunk_entries(ms@.take(i + 1), nv, src@)[count as int] == e);
                    assert(all[count as int] == e);
                    lemma_blocks_written_next(start, out@, 104, count as nat, block, rec@);
                }
                write_bytes(out, base, &rec);
                count = count + 1;
            },
            None => {},
        }
        i = i + 1;
    }
    proof {
        assert(ms@.take(ms@.len() as int) =~= ms@);
    }
    count
}

/// Every chunk's label begins with its kind, and is its kind alone when no
/// name was captured with it.
pub proof fn lemma_chunk_label_kind(kind: Seq<char>, name: Option<Seq<char>>)
    ensures
        is_prefix(kind, chunk_label(kind, name)),
        name is None ==> chunk_label(kind, name) == kind,
        name matches Some(n) ==> chunk_label(kind, name).len() == kind.len() + 1 + n.len()
            && chunk_label(kind, name)[kind.len() as int] == ' ',
{
    let l = chunk_label(kind, name);
    assert(l.subrange(0, kind.len() as int) =~= kind);
}

/// Every capture name of the retrieval query either names a chunk of a kind
/// with a nonzero code or names the name of one.
pub proof fn lemma_retrieval_names()
    ensures
        forall|i: int|
            0 <= i < capture_names_of(QueryKind::Retrieval).len() ==> {
                let n = #[trigger] capture_names_of(QueryKind::Retrieval)[i];
                ||| is_prefix("chunk."@, n) && kind_code(n.skip("chunk."@.len() as int)) != 0
                ||| is_prefix("name."@, n)
            },
{
    reveal_strlit("chunk.");
    reveal_strlit("name.");
    reveal_strlit("name.function");
    reveal_strlit("chunk.function");
    reveal_strlit("name.type");
    reveal_strlit("chunk.type");
    reveal_strlit("name.module");
    reveal_strlit("chunk.module");
    reveal_strlit("module");
    reveal_strlit("type");
    reveal_strlit("function");
    let names = capture_names_of(QueryKind::Retrieval);
    assert("name.function"@.subrange(0, 5) =~= "name."@);
    assert("name.type"@.subrange(0, 5) =~= "name."@);
    assert("name.module"@.subrange(0, 5) =~= "name."@);
    assert("chunk.function"@.subrange(0, 6) =~= "chunk."@);
    assert("chunk.type"@.subrange(0, 6) =~= "chunk."@);
    assert("chunk.module"@.subrange(0, 6) =~= "chunk."@);
    assert("chunk.function"@.skip(6) =~= "function"@);
    assert("chunk.type"@.skip(6) =~= "type"@);
    assert("chunk.module"@.skip(6) =~= "module"@);
    assert("function"@.len() == 8 && "module"@.len() == 6 && "type"@.len() == 4);
    assert(kind_code("module"@) == 1);
    assert(kind_code("type"@) == 2);
    assert(kind_code("function"@) == 3);
}

/// A capture whose name marks a chunk (`chunk.<kind>`).
pub open spec fn is_chunk_capture(c: Capture, names: Seq<Seq<char>>) -> bool {
    is_prefix("chunk."@, names[c.index as int])
}

/// A capture whose name marks a chunk's name (`name.*`, and no chunk), with
/// text that is valid UTF-8.
pub open spec fn is_name_capture(c: Capture, names: Seq<Seq<char>>, src: Seq<u8>) -> bool {
    &&& !is_prefix("chunk."@, names[c.index as int])
    &&& is_prefix("name."@, names[c.index as int])
    &&& text_of(src, c.start as int, c.end as int) is Some
}

/// Reading a match's captures: the chunk span comes from the last chunk
/// capture (its node's start, its node's byte length, and the kind after
/// `chunk.`), and the name is the trimmed text of the last name capture;
/// either is absent when the match has no such capture.
pub proof fn lemma_chunk_scan_captures(caps: Seq<Capture>, names: Seq<Seq<char>>, src: Seq<u8>)
    ensures
        forall|j: int|
            0 <= j < caps.len() && is_chunk_capture(#[trigger] caps[j], names) && (forall|j2: int|
                j < j2 < caps.len() ==> !is_chunk_capture(#[trigger] caps[j2], names)) ==> chunk_scan(
                caps,
                names,
                src,
            ).span == Some(
                (
                    caps[j].start as u32,
                    (caps[j].end - caps[j].start) as u32,
                    names[caps[j].index as int].skip("chunk."@.len() as int),
                ),
            ),
        (forall|j: int| 0 <= j < caps.len() ==> !is_chunk_capture(#[trigger] caps[j], names))
            ==> chunk_scan(caps, names, src).span is None,
        forall|j: int|
            0 <= j < caps.len() && is_name_capture(#[trigger] caps[j], names, src) && (forall|j2: int|
                j < j2 < caps.len() ==> !is_name_capture(#[trigger] caps[j2], names, src))
                ==> chunk_scan(caps, names, src).name == Some(
                trim_chars(text_of(src, caps[j].start as int, caps[j].end as int)->0),
            ),
        (forall|j: int| 0 <= j < caps.len() ==> !is_name_capture(#[trigger] caps[j], names, src))
            ==> chunk_scan(caps, names, src).name is None,
    decreases caps.len(),
{
    if caps.len() > 0 {
        let init = caps.drop_last();
        let n = caps.len() - 1;
        lemma_chunk_scan_captures(init, names, src);
        assert forall|j: int|
            0 <= j < caps.len() && is_chunk_capture(#[trigger] caps[j], names) && (forall|j2: int|
                j < j2 < caps.len() ==> !is_chunk_capture(#[trigger] caps[j2], names)) implies chunk_scan(
            caps,
            names,
            src,
        ).span == Some(
            (
                caps[j].start as u32,
                (caps[j].end - caps[j].start) as u32,
                names[caps[j].index as int].skip("chunk."@.len() as int),
            ),
        ) by {
            if j < n {
                assert(!is_chunk_capture(caps[n], names));
                assert(init[j] == caps[j]);
                assert forall|j2: int| j < j2 < init.len() implies !is_chunk_capture(
                    #[trigger] init[j2],
                    names,
                ) by {
                    assert(init[j2] == caps[j2]);
                }
            }
        }
        if forall|j: int| 0 <= j < caps.len() ==> !is_chunk_capture(#[trigger] caps[j], names) {
            assert(!is_chunk_capture(caps[n], names));
            assert forall|j: int| 0 <= j < init.len() implies !is_chunk_capture(
                #[trigger] init[j],
                names,
            ) by {
                assert(init[j] == caps[j]);
            }
        }
        assert forall|j: int|
            0 <= j < caps.len() && is_name_capture(#[trigger] caps[j], names, src) && (forall|j2: int|
                j < j2 < caps.len() ==> !is_name_capture(#[trigger] caps[j2], names, src))
                implies chunk_scan(caps, names, src).name == Some(
            trim_chars(text_of(src, caps[j].start as int, caps[j].end as int)->0),
        ) by {
            if j < n {
                assert(!is_name_capture(caps[n], names, src));
                assert(init[j] == caps[j]);
                assert forall|j2: int| j < j2 < init.len() implies !is_name_capture(
                    #[trigger] init[j2],
                    names,
                    src,
                ) by {
                    assert(init[j2] == caps[j2]);
                }
            }
        }
        if forall|j: int| 0 <= j < caps.len() ==> !is_name_capture(#[trigger] caps[j], names, src) {
            assert(!is_name_capture(caps[n], names, src));
            assert forall|j: int| 0 <= j < init.len() implies !is_name_capture(
                #[trigger] init[j],
                names,
                src,
            ) by {
                assert(init[j] == caps[j]);
            }
        }
    }
}

/// The chunk of a match: none when no capture marks a chunk; otherwise it
/// starts where the last chunk capture's node starts, is as long as that
/// node, has the kind that follows `chunk.` in that capture's name, and is
/// labelled by the kind, then a space and the trimmed text of the last name
/// capture when there is one.
pub proof fn lemma_chunk_of_captures(m: MatchData, names: Seq<Seq<char>>, src: Seq<u8>)
    ensures
        ({
            let caps = m.captures@;
            &&& (forall|j: int| 0 <= j < caps.len() ==> !is_chunk_capture(#[trigger] caps[j], names))
                ==> chunk_of(m, names, src) is None
            &&& forall|j: int|
                0 <= j < caps.len() && is_chunk_capture(#[trigger] caps[j], names) && (forall|j2: int|
                    j < j2 < caps.len() ==> !is_chunk_capture(#[trigger] caps[j2], names)) ==> {
                    let kind = names[caps[j].index as int].skip("chunk."@.len() as int);
                    &&& chunk_of(m, names, src) is Some
                    &&& chunk_of(m, names, src)->0.offset == caps[j].start as u32
                    &&& chunk_of(m, names, src)->0.length == (caps[j].end - caps[j].start) as u32
                    &&& chunk_of(m, names, src)->0.kind == kind
                    &&& (forall|k: int|
                        0 <= k < caps.len() && is_name_capture(#[trigger] caps[k], names, src) && (
                        forall|k2: int|
                            k < k2 < caps.len() ==> !is_name_capture(#[trigger] caps[k2], names, src))
                            ==> chunk_of(m, names, src)->0.label == kind + seq![' '] + trim_chars(
                            text_of(src, caps[k].start as int, caps[k].end as int)->0,
                        ))
                    &&& ((forall|k: int|
                        0 <= k < caps.len() ==> !is_name_capture(#[trigger] caps[k], names, src))
                        ==> chunk_of(m, names, src)->0.label == kind)
                }
        }),
{
    lemma_chunk_scan_captures(m.captures@, names, src);
}

/// The chunks of the matches are the chunks of those matches that have one,
/// in match order.
pub proof fn lemma_chunk_entries_of_matches(ms: Seq<MatchData>, names: Seq<Seq<char>>, src: Seq<u8>)
    ensures
        chunk_entries(ms, names, src) == ms.filter(|m: MatchData| chunk_of(m, names, src) is Some).map_values(
            |m: MatchData| chunk_of(m, names, src)->0,
        ),
    decreases ms.len(),
{
    reveal(Seq::filter);
    let keep = |m: MatchData| chunk_of(m, names, src) is Some;
    let entry = |m: MatchData| chunk_of(m, names, src)->0;
    if ms.len() == 0 {
        assert(ms.filter(keep).map_values(entry) =~= Seq::<ChunkEntry>::empty());
    } else {
        lemma_chunk_entries_of_matches(ms.drop_last(), names, src);
        let sub = ms.drop_last().filter(keep);
        if keep(ms.last()) {
            assert(sub.push(ms.last()).map_values(entry) =~= sub.map_values(entry).push(
                entry(ms.last()),
            ));
        }
    }
}

} // verus!
