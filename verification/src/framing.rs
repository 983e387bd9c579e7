//! The Frame Reassembler: turns a possibly fragmented byte stream into a
//! sequence of complete records.
//!
//! Framing is delimiter-based: a record ends at a separator byte, and the
//! separator cannot occur inside a well-formed record (the record grammar
//! rejects raw control bytes), so the framing is unambiguous. Bytes after the
//! last separator are buffered and prepended to the next chunk; no byte of an
//! incomplete record is ever dropped.

use crate::bytes::append_bytes;
use vstd::prelude::*;

verus! {

/// The record separator: a newline byte ends each record.
pub const RECORD_SEP: u8 = 0x0a;

/// Folds a byte stream into the records completed so far (`out`) and the
/// bytes of the record still open (`cur`).
pub open spec fn split_fold(s: Seq<u8>, out: Seq<Seq<u8>>, cur: Seq<u8>) -> (Seq<Seq<u8>>, Seq<u8>)
    decreases s.len(),
{
    if s.len() == 0 {
        (out, cur)
    } else if s[0] == RECORD_SEP {
        split_fold(s.drop_first(), out.push(cur), Seq::empty())
    } else {
        split_fold(s.drop_first(), out, cur.push(s[0]))
    }
}

/// The complete records delimited inside `s`.
pub open spec fn records_of(s: Seq<u8>) -> Seq<Seq<u8>> {
    split_fold(s, Seq::empty(), Seq::empty()).0
}

/// The trailing bytes of `s` that no separator has closed yet.
pub open spec fn rest_of(s: Seq<u8>) -> Seq<u8> {
    split_fold(s, Seq::empty(), Seq::empty()).1
}

/// Reassembles records out of arbitrarily sized chunks of the byte stream.
pub struct Reassembler {
    buf: Vec<u8>,
}

impl View for Reassembler {
    type V = Seq<u8>;

    closed spec fn view(&self) -> Seq<u8> {
        self.buf@
    }
}

impl Reassembler {
    /// A reassembler with nothing buffered.
    pub fn new() -> (r: Reassembler)
        ensures
            r@ == Seq::<u8>::empty(),
    {
        let buf: Vec<u8> = Vec::new();
        proof {
            assert(buf@ =~= Seq::<u8>::empty());
        }
        Reassembler { buf }
    }

    /// Accepts the next chunk of the stream and hands back every record that
    /// is now complete; the unterminated tail stays buffered.
    pub fn feed(&mut self, chunk: &Vec<u8>) -> (out: Vec<Vec<u8>>)
        ensures
            out.deep_view() == records_of(old(self)@ + chunk@),
            final(self)@ == rest_of(old(self)@ + chunk@),
    {
        append_bytes(&mut self.buf, chunk);
        let total_len = self.buf.len();
        let ghost total: Seq<u8> = self.buf@;
        let mut out: Vec<Vec<u8>> = Vec::new();
        let mut cur: Vec<u8> = Vec::new();
        let mut i: usize = 0;
        proof {
            assert(total.skip(0) =~= total);
            assert(out.deep_view() =~= Seq::<Seq<u8>>::empty());
            assert(cur@ =~= Seq::<u8>::empty());
        }
        while i < total_len
            invariant
                i <= total_len,
                total_len == total.len(),
                self.buf@ == total,
                split_fold(total, Seq::empty(), Seq::empty()) == split_fold(
                    total.skip(i as int),
                    out.deep_view(),
                    cur@,
                ),
            decreases total_len - i,
        {
            let b = self.buf[i];
            proof {
                assert(total.skip(i as int).drop_first() =~= total.skip(i + 1));
            }
            let ghost prev_out = out.deep_view();
            let ghost prev_cur = cur@;
            if b == RECORD_SEP {
                out.push(cur);
                cur = Vec::new();
                proof {
                    assert(out.deep_view() =~~= prev_out.push(prev_cur));
                    assert(cur@ =~= Seq::<u8>::empty());
                }
            } else {
                cur.push(b);
            }
            i += 1;
        }
        proof {
            assert(total.skip(total_len as int) =~= Seq::<u8>::empty());
        }
        self.buf = cur;
        out
    }
}

/// `split_fold` over a concatenation runs the first part, then the second
/// from the state the first part left.
proof fn lemma_split_fold_concat(a: Seq<u8>, b: Seq<u8>, out: Seq<Seq<u8>>, cur: Seq<u8>)
    ensures
        split_fold(a + b, out, cur) == split_fold(
            b,
            split_fold(a, out, cur).0,
            split_fold(a, out, cur).1,
        ),
    decreases a.len(),
{
    if a.len() == 0 {
        assert(a + b =~= b);
    } else {
        assert((a + b).drop_first() =~= a.drop_first() + b);
        assert((a + b)[0] == a[0]);
        if a[0] == RECORD_SEP {
            lemma_split_fold_concat(a.drop_first(), b, out.push(cur), Seq::empty());
        } else {
            lemma_split_fold_concat(a.drop_first(), b, out, cur.push(a[0]));
        }
    }
}

/// Records already closed only stand in front of whatever the rest of the
/// stream produces.
proof fn lemma_split_fold_out(s: Seq<u8>, out: Seq<Seq<u8>>, cur: Seq<u8>)
    ensures
        split_fold(s, out, cur).0 == out + split_fold(s, Seq::empty(), cur).0,
        split_fold(s, out, cur).1 == split_fold(s, Seq::empty(), cur).1,
    decreases s.len(),
{
    if s.len() == 0 {
        assert(out + Seq::<Seq<u8>>::empty() =~= out);
    } else if s[0] == RECORD_SEP {
        lemma_split_fold_out(s.drop_first(), out.push(cur), Seq::empty());
        lemma_split_fold_out(s.drop_first(), Seq::empty().push(cur), Seq::empty());
        assert(out.push(cur) =~= out + Seq::<Seq<u8>>::empty().push(cur));
        let tail = split_fold(s.drop_first(), Seq::empty(), Seq::empty()).0;
        let mid = Seq::<Seq<u8>>::empty().push(cur);
        assert((out + mid) + tail =~= out + (mid + tail));
    } else {
        lemma_split_fold_out(s.drop_first(), out, cur.push(s[0]));
    }
}

/// A buffered tail without separators just reopens the current record.
proof fn lemma_split_fold_no_sep_prefix(p: Seq<u8>, s: Seq<u8>, cur: Seq<u8>)
    requires
        forall|j: int| 0 <= j < p.len() ==> p[j] != RECORD_SEP,
    ensures
        split_fold(p + s, Seq::empty(), cur) == split_fold(s, Seq::empty(), cur + p),
    decreases p.len(),
{
    if p.len() == 0 {
        assert(p + s =~= s);
        assert(cur + p =~= cur);
    } else {
        assert((p + s).drop_first() =~= p.drop_first() + s);
        assert((p + s)[0] == p[0]);
        lemma_split_fold_no_sep_prefix(p.drop_first(), s, cur.push(p[0]));
        assert(cur.push(p[0]) + p.drop_first() =~= cur + p);
    }
}

/// The open record never holds a separator.
proof fn lemma_rest_no_sep(s: Seq<u8>, out: Seq<Seq<u8>>, cur: Seq<u8>)
    requires
        forall|j: int| 0 <= j < cur.len() ==> cur[j] != RECORD_SEP,
    ensures
        forall|j: int|
            0 <= j < split_fold(s, out, cur).1.len() ==> split_fold(s, out, cur).1[j] != RECORD_SEP,
    decreases s.len(),
{
    if s.len() == 0 {
    } else if s[0] == RECORD_SEP {
        lemma_rest_no_sep(s.drop_first(), out.push(cur), Seq::empty());
        assert forall|j: int| 0 <= j < split_fold(s, out, cur).1.len() implies split_fold(
            s,
            out,
            cur,
        ).1[j] != RECORD_SEP by {
            assert(split_fold(s, out, cur).1[j] == split_fold(
                s.drop_first(),
                out.push(cur),
                Seq::<u8>::empty(),
            ).1[j]);
        }
    } else {
        lemma_rest_no_sep(s.drop_first(), out, cur.push(s[0]));
        assert forall|j: int| 0 <= j < split_fold(s, out, cur).1.len() implies split_fold(
            s,
            out,
            cur,
        ).1[j] != RECORD_SEP by {
            assert(split_fold(s, out, cur).1[j] == split_fold(
                s.drop_first(),
                out,
                cur.push(s[0]),
            ).1[j]);
        }
    }
}

/// A stream fed in two arbitrary chunks yields the same records as the same
/// stream fed whole: the records of `s1 + s2` are the records the first feed
/// closes followed by the records the second feed closes, and the buffered
/// tails agree. Since decoding is a function of a record's bytes, a record
/// split across two feeds decodes exactly as it does when delivered whole.
pub proof fn lemma_feed_split(s1: Seq<u8>, s2: Seq<u8>)
    ensures
        records_of(s1 + s2) == records_of(s1) + records_of(rest_of(s1) + s2),
        rest_of(s1 + s2) == rest_of(rest_of(s1) + s2),
{
    let out1 = records_of(s1);
    let cur1 = rest_of(s1);
    lemma_split_fold_concat(s1, s2, Seq::empty(), Seq::empty());
    lemma_split_fold_out(s2, out1, cur1);
    lemma_rest_no_sep(s1, Seq::empty(), Seq::empty());
    lemma_split_fold_no_sep_prefix(cur1, s2, Seq::empty());
    assert(Seq::<u8>::empty() + cur1 =~= cur1);
}

} // verus!
