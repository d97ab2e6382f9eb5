//! Framing of a server-sent event stream: bytes are cut into lines, and the
//! lines that carry a data frame hand out their payload.

use vstd::prelude::*;
use vstd::slice::{slice_subrange, slice_to_vec};

verus! {

/// The line feed that ends a line.
pub const LINE_FEED: u8 = 0x0A;

/// The carriage return that may stand before a line feed.
pub const CARRIAGE_RETURN: u8 = 0x0D;

/// The bytes of `data: `, the prefix of a line that carries a frame.
pub open spec fn data_prefix() -> Seq<u8> {
    seq![0x64u8, 0x61u8, 0x74u8, 0x61u8, 0x3Au8, 0x20u8]
}

/// The bytes of `[DONE]`, the payload that marks the end of the stream.
pub open spec fn done_sentinel() -> Seq<u8> {
    seq![0x5Bu8, 0x44u8, 0x4Fu8, 0x4Eu8, 0x45u8, 0x5Du8]
}

/// The views of a vector of byte strings, element by element.
pub open spec fn byte_views(items: Seq<Vec<u8>>) -> Seq<Seq<u8>> {
    items.map_values(|item: Vec<u8>| item@)
}

/// Whether `s` begins with `prefix`.
pub open spec fn has_prefix(s: Seq<u8>, prefix: Seq<u8>) -> bool {
    prefix.len() <= s.len() && s.subrange(0, prefix.len() as int) == prefix
}

/// The index of the first line feed in `s`, or the length of `s` if it holds none.
pub open spec fn first_line_feed(s: Seq<u8>) -> nat
    decreases s.len(),
{
    if s.len() == 0 || s[0] == LINE_FEED {
        0
    } else {
        1 + first_line_feed(s.skip(1))
    }
}

/// A line as it stood before its line feed, without the carriage return
/// that may end it.
pub open spec fn without_carriage_return(line: Seq<u8>) -> Seq<u8> {
    if line.len() > 0 && line.last() == CARRIAGE_RETURN {
        line.drop_last()
    } else {
        line
    }
}

/// The lines of `s`. A line ends at a line feed, or at a carriage return
/// directly followed by one; the terminator is not part of the line. What
/// follows the last line feed is a line too unless it is empty, and it
/// keeps a carriage return at its end.
pub open spec fn lines_of(s: Seq<u8>) -> Seq<Seq<u8>>
    decreases s.len(),
{
    if s.len() == 0 {
        Seq::empty()
    } else {
        let k = first_line_feed(s);
        if k >= s.len() {
            seq![s]
        } else {
            seq![without_carriage_return(s.subrange(0, k as int))] + lines_of(s.skip(k as int + 1))
        }
    }
}

/// The payload of a line: what follows `data: `, unless the line has no
/// such prefix or what follows is the end-of-stream sentinel.
pub open spec fn payload_of(line: Seq<u8>) -> Option<Seq<u8>> {
    let rest = line.skip(data_prefix().len() as int);
    if has_prefix(line, data_prefix()) && rest != done_sentinel() {
        Some(rest)
    } else {
        None
    }
}

/// The payloads of the lines that carry one, in the order of the lines.
pub open spec fn payloads_of(lines: Seq<Seq<u8>>) -> Seq<Seq<u8>>
    decreases lines.len(),
{
    if lines.len() == 0 {
        Seq::empty()
    } else {
        match payload_of(lines.last()) {
            Some(p) => payloads_of(lines.drop_last()).push(p),
            None => payloads_of(lines.drop_last()),
        }
    }
}

/// The position just behind the last line feed of `s`, or 0 if it holds none.
pub open spec fn complete_len(s: Seq<u8>) -> nat
    decreases s.len(),
{
    if s.len() == 0 {
        0
    } else if s.last() == LINE_FEED {
        s.len()
    } else {
        complete_len(s.drop_last())
    }
}

/// `first_line_feed` lies within the sequence, no byte before it is a
/// line feed, and the byte at it is one unless it is the length.
pub proof fn lemma_first_line_feed(s: Seq<u8>)
    ensures
        first_line_feed(s) <= s.len(),
        forall|j: int| 0 <= j < first_line_feed(s) ==> s[j] != LINE_FEED,
        first_line_feed(s) < s.len() ==> s[first_line_feed(s) as int] == LINE_FEED,
    decreases s.len(),
{
    if s.len() == 0 || s[0] == LINE_FEED {
    } else {
        let rest = s.skip(1);
        lemma_first_line_feed(rest);
        assert forall|j: int| 0 <= j < first_line_feed(s) implies s[j] != LINE_FEED by {
            if j > 0 {
                assert(s[j] == rest[j - 1]);
            }
        }
        assert(first_line_feed(s) < s.len() ==> s[first_line_feed(s) as int] == rest[first_line_feed(
            rest,
        ) as int]);
    }
}

/// The first line feed is where the first byte equal to it stands.
pub proof fn lemma_first_line_feed_at(s: Seq<u8>, k: int)
    requires
        0 <= k <= s.len(),
        forall|j: int| 0 <= j < k ==> s[j] != LINE_FEED,
        k < s.len() ==> s[k] == LINE_FEED,
    ensures
        first_line_feed(s) == k,
{
    lemma_first_line_feed(s);
    let f = first_line_feed(s) as int;
    if f < k {
        assert(s[f] != LINE_FEED);
    } else if k < f {
        assert(s[k] != LINE_FEED);
    }
}

/// `complete_len` lies within the sequence, follows a line feed unless it
/// is 0, and no line feed stands at or behind it.
pub proof fn lemma_complete_len(s: Seq<u8>)
    ensures
        complete_len(s) <= s.len(),
        complete_len(s) > 0 ==> s[complete_len(s) - 1] == LINE_FEED,
        forall|j: int| complete_len(s) <= j < s.len() ==> s[j] != LINE_FEED,
    decreases s.len(),
{
    if s.len() == 0 || s.last() == LINE_FEED {
    } else {
        let init = s.drop_last();
        lemma_complete_len(init);
        assert(complete_len(s) == complete_len(init));
        assert forall|j: int| complete_len(s) <= j < s.len() implies s[j] != LINE_FEED by {
            if j < init.len() {
                assert(s[j] == init[j]);
            }
        }
        if complete_len(s) > 0 {
            assert(s[complete_len(s) - 1] == init[complete_len(init) - 1]);
        }
    }
}

/// Bytes without a line feed have no complete line.
pub proof fn lemma_complete_len_none(s: Seq<u8>)
    requires
        forall|j: int| 0 <= j < s.len() ==> s[j] != LINE_FEED,
    ensures
        complete_len(s) == 0,
{
    lemma_complete_len(s);
    if complete_len(s) > 0 {
        assert(s[complete_len(s) - 1] == LINE_FEED);
    }
}

/// The complete lines of `a` followed by `b` end where those of `b` end,
/// or where those of `a` end if `b` holds no line feed.
pub proof fn lemma_complete_len_concat(a: Seq<u8>, b: Seq<u8>)
    ensures
        complete_len(a + b) == (if complete_len(b) > 0 {
            a.len() + complete_len(b)
        } else {
            complete_len(a)
        }),
    decreases b.len(),
{
    if b.len() == 0 {
        assert(a + b =~= a);
    } else {
        assert((a + b).last() == b.last());
        if b.last() != LINE_FEED {
            assert((a + b).drop_last() =~= a + b.drop_last());
            lemma_complete_len_concat(a, b.drop_last());
        }
    }
}

/// The lines of whole lines followed by more bytes are the lines of the
/// former followed by the lines of the latter.
pub proof fn lemma_lines_of_concat(a: Seq<u8>, b: Seq<u8>)
    requires
        a.len() == 0 || a.last() == LINE_FEED,
    ensures
        lines_of(a + b) == lines_of(a) + lines_of(b),
    decreases a.len(),
{
    if a.len() == 0 {
        assert(a + b =~= b);
        assert(lines_of(a) + lines_of(b) =~= lines_of(b));
    } else {
        lemma_first_line_feed(a);
        let k = first_line_feed(a) as int;
        if k >= a.len() {
            assert(a[a.len() - 1] == LINE_FEED);
        }
        assert forall|j: int| 0 <= j < k implies (a + b)[j] != LINE_FEED by {
            assert((a + b)[j] == a[j]);
        }
        assert((a + b)[k] == a[k]);
        lemma_first_line_feed_at(a + b, k);
        let rest = a.skip(k + 1);
        assert((a + b).subrange(0, k) =~= a.subrange(0, k));
        assert((a + b).skip(k + 1) =~= rest + b);
        if rest.len() > 0 {
            assert(rest.last() == a.last());
        }
        lemma_lines_of_concat(rest, b);
        assert(lines_of(a + b) =~= lines_of(a) + lines_of(b));
    }
}

/// The payloads of lines followed by more lines are the payloads of the
/// former followed by those of the latter.
pub proof fn lemma_payloads_of_concat(x: Seq<Seq<u8>>, y: Seq<Seq<u8>>)
    ensures
        payloads_of(x + y) == payloads_of(x) + payloads_of(y),
    decreases y.len(),
{
    if y.len() == 0 {
        assert(x + y =~= x);
        assert(payloads_of(x) + payloads_of(y) =~= payloads_of(x));
    } else {
        assert((x + y).drop_last() =~= x + y.drop_last());
        assert((x + y).last() == y.last());
        lemma_payloads_of_concat(x, y.drop_last());
        assert(payloads_of(x + y) =~= payloads_of(x) + payloads_of(y));
    }
}

/// Tells whether `line` begins with `prefix`.
pub fn starts_with(line: &[u8], prefix: &[u8]) -> (found: bool)
    ensures
        found == has_prefix(line@, prefix@),
{
    if prefix.len() > line.len() {
        return false;
    }
    let mut i: usize = 0;
    while i < prefix.len()
        invariant
            i <= prefix.len() <= line.len(),
            forall|j: int| 0 <= j < i ==> line@[j] == prefix@[j],
        decreases prefix.len() - i,
    {
        if line[i] != prefix[i] {
            assert(line@.subrange(0, prefix@.len() as int)[i as int] != prefix@[i as int]);
            return false;
        }
        i = i + 1;
    }
    assert(line@.subrange(0, prefix@.len() as int) =~= prefix@);
    true
}

/// Tells whether two byte strings are equal.
pub fn bytes_equal(a: &[u8], b: &[u8]) -> (same: bool)
    ensures
        same == (a@ == b@),
{
    if a.len() != b.len() {
        return false;
    }
    let found = starts_with(a, b);
    assert(a@.subrange(0, b@.len() as int) =~= a@);
    found
}

/// Cuts `bytes` into its lines.
pub fn split_lines(bytes: &[u8]) -> (lines: Vec<Vec<u8>>)
    ensures
        byte_views(lines@) == lines_of(bytes@),
{
    let mut lines: Vec<Vec<u8>> = Vec::new();
    let mut start: usize = 0;
    let mut i: usize = 0;
    assert(bytes@.skip(0) =~= bytes@);
    assert(byte_views(lines@) =~= Seq::<Seq<u8>>::empty());
    while i < bytes.len()
        invariant
            start <= i <= bytes.len(),
            forall|j: int| start <= j < i ==> bytes@[j] != LINE_FEED,
            lines_of(bytes@) == byte_views(lines@) + lines_of(bytes@.skip(start as int)),
        decreases bytes.len() - i,
    {
        if bytes[i] == LINE_FEED {
            let ghost rest = bytes@.skip(start as int);
            let ghost k = i - start;
            let mut end: usize = i;
            if end > start && bytes[end - 1] == CARRIAGE_RETURN {
                end = end - 1;
            }
            let line = slice_to_vec(slice_subrange(bytes, start, end));
            proof {
                lemma_first_line_feed_at(rest, k);
                assert(rest.subrange(0, k) =~= bytes@.subrange(start as int, i as int));
                assert(line@ =~= without_carriage_return(rest.subrange(0, k)));
                assert(rest.skip(k + 1) =~= bytes@.skip(i + 1));
                assert(byte_views(lines@.push(line)) =~= byte_views(lines@) + seq![line@]);
            }
            lines.push(line);
            start = i + 1;
        }
        i = i + 1;
    }
    if start < bytes.len() {
        let line = slice_to_vec(slice_subrange(bytes, start, bytes.len()));
        proof {
            let rest = bytes@.skip(start as int);
            lemma_first_line_feed_at(rest, rest.len() as int);
            assert(line@ =~= rest);
            assert(byte_views(lines@.push(line)) =~= byte_views(lines@) + seq![line@]);
        }
        lines.push(line);
    } else {
        assert(bytes@.skip(start as int).len() == 0);
    }
    lines
}

/// Hands out the payload of `line`, if it carries one.
pub fn frame_payload(line: &[u8]) -> (payload: Option<Vec<u8>>)
    ensures
        match payload {
            Some(p) => payload_of(line@) == Some(p@),
            None => payload_of(line@) is None,
        },
{
    let prefix: [u8; 6] = [0x64, 0x61, 0x74, 0x61, 0x3A, 0x20];
    let sentinel: [u8; 6] = [0x5B, 0x44, 0x4F, 0x4E, 0x45, 0x5D];
    assert(prefix@ =~= data_prefix());
    assert(sentinel@ =~= done_sentinel());
    if !starts_with(line, prefix.as_slice()) {
        return None;
    }
    let rest = slice_subrange(line, prefix.len(), line.len());
    assert(rest@ =~= line@.skip(data_prefix().len() as int));
    if bytes_equal(rest, sentinel.as_slice()) {
        None
    } else {
        Some(slice_to_vec(rest))
    }
}

/// Collects the payloads of `lines`, in order.
pub fn frame_payloads(lines: &Vec<Vec<u8>>) -> (payloads: Vec<Vec<u8>>)
    ensures
        byte_views(payloads@) == payloads_of(byte_views(lines@)),
{
    let mut payloads: Vec<Vec<u8>> = Vec::new();
    let mut i: usize = 0;
    assert(byte_views(lines@).take(0) =~= Seq::<Seq<u8>>::empty());
    assert(byte_views(payloads@) =~= Seq::<Seq<u8>>::empty());
    while i < lines.len()
        invariant
            i <= lines.len(),
            byte_views(payloads@) == payloads_of(byte_views(lines@).take(i as int)),
        decreases lines.len() - i,
    {
        let ghost before = byte_views(lines@).take(i as int);
        let ghost after = byte_views(lines@).take(i + 1);
        assert(after.drop_last() =~= before);
        assert(after.last() == lines@[i as int]@);
        match frame_payload(lines[i].as_slice()) {
            Some(p) => {
                assert(byte_views(payloads@.push(p)) =~= byte_views(payloads@).push(p@));
                payloads.push(p);
            },
            None => {},
        }
        i = i + 1;
    }
    assert(byte_views(lines@).take(lines.len() as int) =~= byte_views(lines@));
    payloads
}

} // verus!
