//! Frame location and resynchronization over the accumulation buffer.
//!
//! The buffer owns the bytes read from the stream so far. One parsing pass
//! scans for the first header signature, discards the garbage before it,
//! waits for a full 84-byte window, confirms the sensor marker inside the
//! window, and decodes. A window that fails the marker test or the validation
//! cascade costs exactly the 6 header bytes: real data that follows a false
//! match is never lost. `parse_spec` is the specification of one whole pass,
//! and `try_parse_message` is proved to realize it.

use vstd::prelude::*;
use crate::frame::{decode, decode_ok, record_matches, IMUData, FRAME_LEN};

verus! {

/// The 6-byte header signature that starts a candidate frame.
pub open spec fn header_sig() -> Seq<u8> {
    seq![0x28u8, 0x36u8, 0x00u8, 0x00u8, 0x00u8, 0x80u8]
}

/// The 6-byte sensor marker that confirms the candidate's sub-type.
pub open spec fn sensor_sig() -> Seq<u8> {
    seq![0x00u8, 0x40u8, 0x1fu8, 0x00u8, 0x00u8, 0x40u8]
}

/// `pat` occurs in `s` at position `i`.
pub open spec fn match_at(s: Seq<u8>, pat: Seq<u8>, i: int) -> bool {
    &&& 0 <= i
    &&& i + pat.len() <= s.len()
    &&& forall|k: int| 0 <= k < pat.len() ==> s[i + k] == pat[k]
}

/// Position of the first occurrence of `pat` in `s`, or -1 when `pat` does
/// not occur.
pub open spec fn first_pos(s: Seq<u8>, pat: Seq<u8>) -> int
    decreases s.len(),
{
    if s.len() < pat.len() {
        -1
    } else if match_at(s, pat, 0) {
        0
    } else {
        let r = first_pos(s.skip(1), pat);
        if r < 0 {
            -1
        } else {
            r + 1
        }
    }
}

/// Occurrences shift with a prefix drop: `pat` at `p + j` in `s` is `pat` at
/// `j` in `s.skip(p)`.
pub proof fn lemma_match_shift(s: Seq<u8>, pat: Seq<u8>, p: int, j: int)
    requires
        0 <= p <= s.len(),
        0 <= j,
    ensures
        match_at(s, pat, p + j) == match_at(s.skip(p), pat, j),
{
    let t = s.skip(p);
    if match_at(s, pat, p + j) {
        assert forall|k: int| 0 <= k < pat.len() implies t[j + k] == pat[k] by {
            assert(s[(p + j) + k] == pat[k]);
        }
        assert(match_at(t, pat, j));
    }
    if match_at(t, pat, j) {
        assert forall|k: int| 0 <= k < pat.len() implies s[(p + j) + k] == pat[k] by {
            assert(t[j + k] == pat[k]);
        }
        assert(match_at(s, pat, p + j));
    }
}

/// `first_pos` finds the first occurrence: -1 means none, a nonnegative
/// result is an occurrence with none before it.
pub proof fn lemma_first_pos(s: Seq<u8>, pat: Seq<u8>)
    ensures
        first_pos(s, pat) == -1 || first_pos(s, pat) >= 0,
        first_pos(s, pat) == -1 ==> forall|j: int| !match_at(s, pat, j),
        first_pos(s, pat) >= 0 ==> match_at(s, pat, first_pos(s, pat)) && (forall|j: int|
            0 <= j < first_pos(s, pat) ==> !match_at(s, pat, j)),
    decreases s.len(),
{
    let p = first_pos(s, pat);
    if s.len() < pat.len() {
        assert forall|j: int| !match_at(s, pat, j) by {
            if 0 <= j {
                assert(j + pat.len() > s.len());
            }
        }
    } else if match_at(s, pat, 0) {
    } else {
        assert(pat.len() >= 1) by {
            if pat.len() == 0 {
                assert(match_at(s, pat, 0));
            }
        }
        lemma_first_pos(s.skip(1), pat);
        let r = first_pos(s.skip(1), pat);
        if r < 0 {
            assert forall|j: int| !match_at(s, pat, j) by {
                if j >= 1 {
                    lemma_match_shift(s, pat, 1, j - 1);
                }
            }
        } else {
            lemma_match_shift(s, pat, 1, r);
            assert(match_at(s, pat, r + 1));
            assert forall|j: int| 0 <= j < r + 1 implies !match_at(s, pat, j) by {
                if j >= 1 {
                    lemma_match_shift(s, pat, 1, j - 1);
                }
            }
        }
    }
}

/// An occurrence with none before it pins `first_pos` down.
pub proof fn lemma_first_pos_unique(s: Seq<u8>, pat: Seq<u8>, i: int)
    requires
        match_at(s, pat, i),
        forall|j: int| 0 <= j < i ==> !match_at(s, pat, j),
    ensures
        first_pos(s, pat) == i,
{
    lemma_first_pos(s, pat);
    let p = first_pos(s, pat);
    if p == -1 {
        assert(!match_at(s, pat, i));
    } else if p < i {
        assert(!match_at(s, pat, p));
    } else if p > i {
        assert(!match_at(s, pat, i));
    }
}

/// Dropping everything before the first occurrence puts it at the head.
pub proof fn lemma_first_pos_skip_to(s: Seq<u8>, pat: Seq<u8>)
    requires
        first_pos(s, pat) >= 0,
    ensures
        first_pos(s.skip(first_pos(s, pat)), pat) == 0,
{
    let p = first_pos(s, pat);
    lemma_first_pos(s, pat);
    lemma_match_shift(s, pat, p, 0);
    lemma_first_pos_unique(s.skip(p), pat, 0);
}

/// Outcome of one parsing pass over a buffer: whether a record was produced,
/// the 84-byte window it was decoded from, and the bytes left in the buffer.
pub struct ParseOutcome {
    pub produced: bool,
    pub frame: Seq<u8>,
    pub rest: Seq<u8>,
}

/// One whole parsing pass, as `try_parse_message` performs it: find the first
/// header; without one the buffer is left as it is. Drop the garbage before
/// the header. With fewer than 84 bytes from the header on, wait for more.
/// With a full window, a missing sensor marker or a failed validation costs
/// exactly the 6 header bytes and the pass resumes; a valid window is
/// consumed whole and produces its record.
pub open spec fn parse_spec(s: Seq<u8>) -> ParseOutcome
    decreases s.len(),
{
    let p = first_pos(s, header_sig());
    if p < 0 {
        ParseOutcome { produced: false, frame: Seq::empty(), rest: s }
    } else if s.len() - p < FRAME_LEN {
        ParseOutcome { produced: false, frame: Seq::empty(), rest: s.skip(p) }
    } else {
        let w = s.subrange(p, p + FRAME_LEN);
        if first_pos(w, sensor_sig()) < 0 {
            parse_spec(s.skip(p + 6))
        } else if decode_ok(w) {
            ParseOutcome { produced: true, frame: w, rest: s.skip(p + FRAME_LEN) }
        } else {
            parse_spec(s.skip(p + 6))
        }
    }
}

/// Leading garbage is discarded before anything else: a pass over `s` is the
/// pass over `s` with everything before the first header dropped.
pub proof fn lemma_parse_skips_garbage(s: Seq<u8>)
    requires
        first_pos(s, header_sig()) >= 0,
    ensures
        parse_spec(s.skip(first_pos(s, header_sig()))).produced == parse_spec(s).produced,
        parse_spec(s.skip(first_pos(s, header_sig()))).frame == parse_spec(s).frame,
        parse_spec(s.skip(first_pos(s, header_sig()))).rest == parse_spec(s).rest,
{
    let p = first_pos(s, header_sig());
    let t = s.skip(p);
    lemma_first_pos(s, header_sig());
    assert(p + 6 <= s.len());
    lemma_first_pos_skip_to(s, header_sig());
    if s.len() - p < FRAME_LEN {
        assert(t.len() < FRAME_LEN);
        assert(t.skip(0) =~= t);
    } else {
        let w = s.subrange(p, p + FRAME_LEN);
        let wt = t.subrange(0, FRAME_LEN as int);
        assert(w =~= wt);
        assert(s.skip(p + 6) =~= t.skip(6));
        assert(s.skip(p + FRAME_LEN) =~= t.skip(FRAME_LEN as int));
    }
}

/// A pass removes bytes only from the head: whatever the outcome, the bytes
/// it leaves are a suffix of the bytes it was given, in their order.
pub proof fn lemma_rest_is_suffix(s: Seq<u8>)
    ensures
        exists|n: int| 0 <= n <= s.len() && parse_spec(s).rest == s.skip(n),
    decreases s.len(),
{
    let p = first_pos(s, header_sig());
    if p < 0 {
        assert(parse_spec(s).rest =~= s.skip(0));
    } else if s.len() - p < FRAME_LEN {
        lemma_first_pos(s, header_sig());
        assert(0 <= p <= s.len() && parse_spec(s).rest == s.skip(p));
    } else {
        lemma_first_pos(s, header_sig());
        let w = s.subrange(p, p + FRAME_LEN);
        if first_pos(w, sensor_sig()) < 0 || !decode_ok(w) {
            lemma_rest_is_suffix(s.skip(p + 6));
            let n = choose|n: int|
                0 <= n <= s.skip(p + 6).len() && parse_spec(s.skip(p + 6)).rest == #[trigger] s.skip(
                    p + 6,
                ).skip(n);
            assert(s.skip(p + 6).skip(n) =~= s.skip(p + 6 + n));
            assert(parse_spec(s).rest == s.skip(p + 6 + n));
        } else {
            assert(parse_spec(s).rest == s.skip(p + FRAME_LEN));
        }
    }
}

/// A buffer without the header signature yields nothing and is left exactly
/// as it was.
pub proof fn lemma_no_header_keeps_buffer(s: Seq<u8>)
    requires
        forall|j: int| !match_at(s, header_sig(), j),
    ensures
        !parse_spec(s).produced,
        parse_spec(s).rest == s,
{
    lemma_first_pos(s, header_sig());
    if first_pos(s, header_sig()) >= 0 {
        assert(match_at(s, header_sig(), first_pos(s, header_sig())));
    }
}

/// With the header present but fewer than 84 bytes from it on, the pass only
/// discards the garbage: the buffer then starts with the header and waits.
pub proof fn lemma_partial_frame_waits(s: Seq<u8>)
    requires
        first_pos(s, header_sig()) >= 0,
        s.len() - first_pos(s, header_sig()) < FRAME_LEN,
    ensures
        !parse_spec(s).produced,
        parse_spec(s).rest == s.skip(first_pos(s, header_sig())),
        match_at(parse_spec(s).rest, header_sig(), 0),
{
    let p = first_pos(s, header_sig());
    lemma_first_pos(s, header_sig());
    lemma_match_shift(s, header_sig(), p, 0);
}

/// A window with header and sensor marker that fails validation costs
/// exactly the 6 header bytes: the pass continues as if the buffer had begun
/// 6 bytes further on, so a valid frame after the false match is still found.
pub proof fn lemma_reject_discards_header(s: Seq<u8>)
    requires
        first_pos(s, header_sig()) == 0,
        s.len() >= FRAME_LEN,
        first_pos(s.subrange(0, FRAME_LEN as int), sensor_sig()) >= 0,
        !decode_ok(s.subrange(0, FRAME_LEN as int)),
    ensures
        parse_spec(s).produced == parse_spec(s.skip(6)).produced,
        parse_spec(s).frame == parse_spec(s.skip(6)).frame,
        parse_spec(s).rest == parse_spec(s.skip(6)).rest,
{
}

/// A buffer that is exactly one well-formed frame — header at the head, the
/// sensor marker inside the window, the validation cascade passing — yields
/// a record decoded from that window and consumes the buffer whole.
pub proof fn lemma_valid_frame_produces(s: Seq<u8>)
    requires
        s.len() == FRAME_LEN,
        first_pos(s, header_sig()) == 0,
        first_pos(s, sensor_sig()) >= 0,
        decode_ok(s),
    ensures
        parse_spec(s).produced,
        parse_spec(s).frame == s,
        parse_spec(s).rest == Seq::<u8>::empty(),
{
    assert(s.subrange(0, FRAME_LEN as int) =~= s);
    assert(s.skip(FRAME_LEN as int) =~= Seq::<u8>::empty());
}

/// Resynchronizing parser state: the accumulation buffer. Bytes enter at the
/// tail as the stream delivers them and leave at the head as frames are
/// consumed or discarded; no byte is ever reordered.
///
/// While no header signature is present the buffer is left to grow unbounded:
/// a partial header could straddle a future read boundary, so nothing may be
/// trimmed. This relies on the upstream device eventually sending a header;
/// a caller that cannot assume that must cap the bytes it feeds in.
pub struct FrameParser {
    buf: Vec<u8>,
}

impl View for FrameParser {
    type V = Seq<u8>;

    closed spec fn view(&self) -> Seq<u8> {
        self.buf@
    }
}

impl FrameParser {
    /// A parser with an empty buffer.
    pub fn new() -> (p: FrameParser)
        ensures
            p@ == Seq::<u8>::empty(),
    {
        let v: Vec<u8> = Vec::new();
        proof {
            assert(v@ =~= Seq::<u8>::empty());
        }
        FrameParser { buf: v }
    }

    /// The bytes currently buffered.
    pub fn buffered(&self) -> (r: &Vec<u8>)
        ensures
            r@ == self@,
    {
        &self.buf
    }

    /// Appends freshly read bytes at the tail: the stream reader's one side
    /// effect on the parser.
    pub fn push_bytes(&mut self, data: &Vec<u8>)
        ensures
            final(self)@ == old(self)@ + data@,
    {
        let n: usize = data.len();
        let mut i: usize = 0;
        while i < n
            invariant
                i <= n,
                n == data@.len(),
                self.buf@ == old(self).buf@ + data@.take(i as int),
            decreases n - i,
        {
            let b: u8 = data[i];
            proof {
                assert((old(self).buf@ + data@.take(i as int)).push(b) =~= old(self).buf@
                    + data@.take(i + 1));
            }
            self.buf.push(b);
            i = i + 1;
        }
        proof {
            assert(data@.take(n as int) =~= data@);
        }
    }

    /// Removes `n` bytes from the head of the buffer.
    fn drop_front(&mut self, n: usize)
        requires
            n <= old(self)@.len(),
        ensures
            final(self)@ == old(self)@.skip(n as int),
    {
        let len: usize = self.buf.len();
        let mut v: Vec<u8> = Vec::new();
        let mut i: usize = n;
        while i < len
            invariant
                n <= i <= len,
                len == self.buf@.len(),
                self.buf@ == old(self).buf@,
                v@ == self.buf@.subrange(n as int, i as int),
            decreases len - i,
        {
            let b: u8 = self.buf[i];
            proof {
                assert(self.buf@.subrange(n as int, i as int).push(b) =~= self.buf@.subrange(
                    n as int,
                    i + 1,
                ));
            }
            v.push(b);
            i = i + 1;
        }
        proof {
            assert(v@ =~= old(self).buf@.skip(n as int));
        }
        self.buf = v;
    }

    /// Copies the 84-byte candidate window at the head of the buffer.
    fn front_window(&self) -> (w: Vec<u8>)
        requires
            self@.len() >= FRAME_LEN,
        ensures
            w@ == self@.take(FRAME_LEN as int),
    {
        let mut w: Vec<u8> = Vec::new();
        let mut i: usize = 0;
        while i < FRAME_LEN
            invariant
                i <= FRAME_LEN,
                self@.len() >= FRAME_LEN,
                w@ == self@.take(i as int),
            decreases FRAME_LEN - i,
        {
            let b: u8 = self.buf[i];
            proof {
                assert(self@.take(i as int).push(b) =~= self@.take(i + 1));
            }
            w.push(b);
            i = i + 1;
        }
        w
    }

    /// One parsing pass over the buffered bytes, exactly as `parse_spec`
    /// describes it. Returns the next decoded record, or nothing when more
    /// bytes are needed; never blocks. Internally iterative: adversarial
    /// input costs no stack.
    pub fn try_parse_message(&mut self) -> (r: Option<IMUData>)
        ensures
            final(self)@ == parse_spec(old(self)@).rest,
            match r {
                Some(d) => parse_spec(old(self)@).produced && decode_ok(parse_spec(old(self)@).frame)
                    && record_matches(d, parse_spec(old(self)@).frame),
                None => !parse_spec(old(self)@).produced,
            },
    {
        let hdr = header_vec();
        let sns = sensor_vec();
        loop
            invariant
                hdr@ == header_sig(),
                sns@ == sensor_sig(),
                parse_spec(old(self)@).produced == parse_spec(self.buf@).produced,
                parse_spec(old(self)@).frame == parse_spec(self.buf@).frame,
                parse_spec(old(self)@).rest == parse_spec(self.buf@).rest,
            decreases self.buf@.len(),
        {
            let ghost s0 = self.buf@;
            match find_subsequence(&self.buf, &hdr) {
                None => {
                    return None;
                },
                Some(p) => {
                    proof {
                        lemma_first_pos(s0, header_sig());
                        lemma_parse_skips_garbage(s0);
                    }
                    self.drop_front(p);
                    let ghost s = self.buf@;
                    proof {
                        lemma_first_pos_skip_to(s0, header_sig());
                        assert(first_pos(s, header_sig()) == 0);
                    }
                    if self.buf.len() < FRAME_LEN {
                        proof {
                            assert(s.skip(0) =~= s);
                        }
                        return None;
                    }
                    let w = self.front_window();
                    proof {
                        assert(w@ =~= s.subrange(0, FRAME_LEN as int));
                    }
                    match find_subsequence(&w, &sns) {
                        None => {
                            self.drop_front(6);
                        },
                        Some(_) => {
                            match decode(&w) {
                                Ok(d) => {
                                    self.drop_front(FRAME_LEN);
                                    return Some(d);
                                },
                                Err(_) => {
                                    self.drop_front(6);
                                },
                            }
                        },
                    }
                },
            }
        }
    }
}

/// The header signature as bytes.
pub fn header_vec() -> (v: Vec<u8>)
    ensures
        v@ == header_sig(),
{
    let mut v: Vec<u8> = Vec::new();
    v.push(0x28);
    v.push(0x36);
    v.push(0x00);
    v.push(0x00);
    v.push(0x00);
    v.push(0x80);
    proof {
        assert(v@ =~= header_sig());
    }
    v
}

/// The sensor marker as bytes.
pub fn sensor_vec() -> (v: Vec<u8>)
    ensures
        v@ == sensor_sig(),
{
    let mut v: Vec<u8> = Vec::new();
    v.push(0x00);
    v.push(0x40);
    v.push(0x1f);
    v.push(0x00);
    v.push(0x00);
    v.push(0x40);
    proof {
        assert(v@ =~= sensor_sig());
    }
    v
}

/// Whether `needle` occurs at position `i` of `haystack`.
fn matches_at(h: &Vec<u8>, pat: &Vec<u8>, i: usize) -> (r: bool)
    requires
        i + pat@.len() <= h@.len(),
    ensures
        r == match_at(h@, pat@, i as int),
{
    let hl: usize = h.len();
    let nl: usize = pat.len();
    let mut k: usize = 0;
    while k < nl
        invariant
            k <= nl,
            nl == pat@.len(),
            hl == h@.len(),
            i + nl <= hl,
            forall|m: int| 0 <= m < k ==> h@[i + m] == pat@[m],
        decreases nl - k,
    {
        if h[i + k] != pat[k] {
            proof {
                assert(!match_at(h@, pat@, i as int));
            }
            return false;
        }
        k = k + 1;
    }
    true
}

/// Position of the first occurrence of `needle` in `haystack`, scanning from
/// the head, or nothing when it does not occur.
pub fn find_subsequence(haystack: &Vec<u8>, needle: &Vec<u8>) -> (r: Option<usize>)
    requires
        needle@.len() >= 1,
    ensures
        match r {
            Some(i) => first_pos(haystack@, needle@) == i,
            None => first_pos(haystack@, needle@) == -1,
        },
{
    let hl: usize = haystack.len();
    let nl: usize = needle.len();
    if hl < nl {
        proof {
            lemma_first_pos(haystack@, needle@);
            if first_pos(haystack@, needle@) >= 0 {
                assert(match_at(haystack@, needle@, first_pos(haystack@, needle@)));
            }
        }
        return None;
    }
    let last: usize = hl - nl;
    let mut i: usize = 0;
    while i <= last
        invariant
            i <= last + 1,
            last == hl - nl,
            nl >= 1,
            hl == haystack@.len(),
            nl == needle@.len(),
            nl <= hl,
            forall|j: int| 0 <= j < i ==> !match_at(haystack@, needle@, j),
        decreases last + 1 - i,
    {
        if matches_at(haystack, needle, i) {
            proof {
                lemma_first_pos_unique(haystack@, needle@, i as int);
            }
            return Some(i);
        }
        i = i + 1;
    }
    proof {
        lemma_first_pos(haystack@, needle@);
        let p = first_pos(haystack@, needle@);
        if p >= 0 {
            assert(match_at(haystack@, needle@, p));
            assert(p + nl <= hl);
            assert(p < i);
        }
    }
    None
}

} // verus!
