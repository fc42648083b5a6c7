//! Demultiplexing of the device byte stream into log text and screen payloads.
use vstd::prelude::*;

verus! {

/// Length in bytes of each of the two capture markers.
pub const MARKER_LEN: usize = 16;

/// Length in bytes of a packed 200x200 one-bit-per-pixel screen payload.
pub const PAYLOAD_LEN: usize = 5000;

/// `thisisastartpack`
pub open spec fn start_marker() -> Seq<u8> {
    seq![116u8, 104, 105, 115, 105, 115, 97, 115, 116, 97, 114, 116, 112, 97, 99, 107]
}

/// `thisisaendddpack`
pub open spec fn end_marker() -> Seq<u8> {
    seq![116u8, 104, 105, 115, 105, 115, 97, 101, 110, 100, 100, 100, 112, 97, 99, 107]
}

/// `pat` occurs in `hay` starting at index `i`.
pub open spec fn occurs_at(hay: Seq<u8>, pat: Seq<u8>, i: int) -> bool {
    0 <= i && i + pat.len() <= hay.len() && hay.subrange(i, i + pat.len()) == pat
}

/// The first index at or after `i` where `pat` occurs in `hay`.
pub open spec fn find_from(hay: Seq<u8>, pat: Seq<u8>, i: int) -> Option<int>
    decreases hay.len() + 1 - i,
{
    if i < 0 || i + pat.len() > hay.len() {
        None
    } else if occurs_at(hay, pat, i) {
        Some(i)
    } else {
        find_from(hay, pat, i + 1)
    }
}

/// The first index where `pat` occurs in `hay`.
pub open spec fn find(hay: Seq<u8>, pat: Seq<u8>) -> Option<int> {
    find_from(hay, pat, 0)
}

/// What the parser hands out for one capture boundary.
#[derive(Clone, Debug, PartialEq, Eq)]
pub enum Frame {
    /// Raw log text that preceded a capture's screen payload.
    Log(Vec<u8>),
    /// A screen payload of exactly `PAYLOAD_LEN` bytes.
    Screen(Vec<u8>),
}

/// A frame's kind and bytes.
pub enum FrameView {
    Log(Seq<u8>),
    Screen(Seq<u8>),
}

impl View for Frame {
    type V = FrameView;

    open spec fn view(&self) -> FrameView {
        match self {
            Frame::Log(b) => FrameView::Log(b@),
            Frame::Screen(b) => FrameView::Screen(b@),
        }
    }
}

/// The frames emitted for one valid capture: its log text, then its screen
/// payload when that has the expected length.
pub open spec fn capture_frames(logs: Seq<u8>, payload: Seq<u8>) -> Seq<FrameView> {
    if payload.len() == PAYLOAD_LEN {
        seq![FrameView::Log(logs), FrameView::Screen(payload)]
    } else {
        seq![FrameView::Log(logs)]
    }
}

/// Processing of a buffer: the frames emitted, whether the parser is then
/// synchronized, and the bytes kept for later.
pub open spec fn process(synced: bool, buf: Seq<u8>) -> (Seq<FrameView>, bool, Seq<u8>)
    decreases buf.len()
    via process_decreases

{
    match find(buf, end_marker()) {
        None => (seq![], synced, buf),
        Some(e) => {
            if !synced {
                (seq![], true, seq![])
            } else {
                match find(buf, start_marker()) {
                    None => (seq![FrameView::Log(buf.subrange(0, e))], true, seq![]),
                    Some(s) => {
                        if e < s + 16 {
                            (seq![], true, seq![])
                        } else {
                            let rest = process(true, buf.subrange(e + 16, buf.len() as int));
                            (
                                capture_frames(buf.subrange(0, s), buf.subrange(s + 16, e))
                                    + rest.0,
                                rest.1,
                                rest.2,
                            )
                        }
                    },
                }
            }
        },
    }
}

#[via_fn]
proof fn process_decreases(synced: bool, buf: Seq<u8>) {
    lemma_find(buf, end_marker());
}

/// Every match that `find_from` reports is a real occurrence, with none before it.
pub proof fn lemma_find_from(hay: Seq<u8>, pat: Seq<u8>, i: int)
    requires
        0 <= i,
    ensures
        match find_from(hay, pat, i) {
            Some(k) => i <= k && occurs_at(hay, pat, k) && forall|j: int|
                i <= j < k ==> !occurs_at(hay, pat, j),
            None => forall|j: int| i <= j ==> !occurs_at(hay, pat, j),
        },
    decreases hay.len() + 1 - i,
{
    if i + pat.len() <= hay.len() && !occurs_at(hay, pat, i) {
        lemma_find_from(hay, pat, i + 1);
    }
}

/// `find` reports exactly the first occurrence.
pub proof fn lemma_find(hay: Seq<u8>, pat: Seq<u8>)
    ensures
        match find(hay, pat) {
            Some(k) => occurs_at(hay, pat, k) && forall|j: int|
                0 <= j < k ==> !occurs_at(hay, pat, j),
            None => forall|j: int| !occurs_at(hay, pat, j),
        },
{
    lemma_find_from(hay, pat, 0);
}

/// Index of the first occurrence of `subsequence` in `vector`.
pub fn find_subsequence(vector: &[u8], subsequence: &[u8]) -> (r: Option<usize>)
    ensures
        match r {
            Some(i) => find(vector@, subsequence@) == Some(i as int),
            None => find(vector@, subsequence@) is None,
        },
{
    if subsequence.len() > vector.len() {
        return None;
    }
    if subsequence.len() == 0 {
        assert(vector@.subrange(0, 0) =~= subsequence@);
        return Some(0);
    }
    let n = vector.len();
    let last = n - subsequence.len();
    let mut i: usize = 0;
    while i <= last
        invariant
            0 < subsequence@.len(),
            n == vector@.len(),
            last == n - subsequence@.len(),
            i <= last + 1,
            find_from(vector@, subsequence@, 0) == find_from(vector@, subsequence@, i as int),
        decreases last + 1 - i,
    {
        let mut j: usize = 0;
        let mut agree = true;
        while agree && j < subsequence.len()
            invariant
                n == vector@.len(),
                i + subsequence@.len() <= n,
                j <= subsequence@.len(),
                forall|k: int| 0 <= k < j ==> vector@[i + k] == subsequence@[k],
                !agree ==> j < subsequence@.len() && vector@[i + j] != subsequence@[j as int],
            decreases subsequence.len() - j + (if agree { 1int } else { 0int }),
        {
            if vector[i + j] == subsequence[j] {
                j = j + 1;
            } else {
                agree = false;
            }
        }
        if j == subsequence.len() {
            assert(vector@.subrange(i as int, i + subsequence@.len()) =~= subsequence@);
            return Some(i);
        }
        assert(vector@.subrange(i as int, i + subsequence@.len())[j as int] != subsequence@[j as int]);
        i = i + 1;
    }
    None
}

/// The bytes kept after processing never hold an end marker.
pub proof fn lemma_process_leaves_no_end(synced: bool, buf: Seq<u8>)
    ensures
        find(process(synced, buf).2, end_marker()) is None,
    decreases buf.len(),
{
    lemma_find(buf, end_marker());
    reveal_with_fuel(find_from, 2);
    match find(buf, end_marker()) {
        None => {},
        Some(e) => {
            if synced {
                match find(buf, start_marker()) {
                    None => {},
                    Some(s) => {
                        if e >= s + 16 {
                            lemma_process_leaves_no_end(true, buf.subrange(e + 16, buf.len() as int));
                        }
                    },
                }
            }
        },
    }
}

/// The views of a sequence of frames.
pub open spec fn frames_view(v: Seq<Frame>) -> Seq<FrameView> {
    v.map_values(|f: Frame| f@)
}

fn start_packet() -> (r: Vec<u8>)
    ensures
        r@ == start_marker(),
{
    let r = vec![116u8, 104, 105, 115, 105, 115, 97, 115, 116, 97, 114, 116, 112, 97, 99, 107];
    assert(r@ =~= start_marker());
    r
}

fn end_packet() -> (r: Vec<u8>)
    ensures
        r@ == end_marker(),
{
    let r = vec![116u8, 104, 105, 115, 105, 115, 97, 101, 110, 100, 100, 100, 112, 97, 99, 107];
    assert(r@ =~= end_marker());
    r
}

/// Stateful splitter of the device byte stream. Bytes that do not yet
/// complete a capture are buffered until a later `feed`.
pub struct FrameParser {
    buf: Vec<u8>,
    synced: bool,
}

impl View for FrameParser {
    /// Whether the parser is synchronized, and the buffered bytes.
    type V = (bool, Seq<u8>);

    closed spec fn view(&self) -> (bool, Seq<u8>) {
        (self.synced, self.buf@)
    }
}

impl FrameParser {
    /// No complete capture is ever left in the buffer.
    pub open spec fn wf(&self) -> bool {
        find(self@.1, end_marker()) is None
    }

    /// A parser that has not yet seen a capture boundary.
    pub fn new() -> (r: FrameParser)
        ensures
            r@ == (false, Seq::<u8>::empty()),
            r.wf(),
    {
        let r = FrameParser { buf: Vec::new(), synced: false };
        assert(find(r@.1, end_marker()) is None);
        r
    }

    /// Whether a capture boundary has been seen since the parser was made.
    pub fn is_synced(&self) -> (r: bool)
        ensures
            r == self@.0,
    {
        self.synced
    }

    /// Appends `bytes` to the buffer and emits, in stream order, the frames
    /// of every capture that the buffer now completes.
    pub fn feed(&mut self, bytes: &[u8]) -> (out: Vec<Frame>)
        ensures
            process(old(self)@.0, old(self)@.1 + bytes@) == (
                frames_view(out@),
                final(self)@.0,
                final(self)@.1,
            ),
            final(self).wf(),
    {
        let ghost total = process(self.synced, self.buf@ + bytes@);
        self.buf.extend_from_slice(bytes);
        assert(self.buf@ =~= old(self)@.1 + bytes@);
        let start = start_packet();
        let end = end_packet();
        let mut out: Vec<Frame> = Vec::new();
        let mut more = true;
        while more
            invariant
                start@ == start_marker(),
                end@ == end_marker(),
                total == (
                    frames_view(out@) + process(self.synced, self.buf@).0,
                    process(self.synced, self.buf@).1,
                    process(self.synced, self.buf@).2,
                ),
                !more ==> find(self.buf@, end_marker()) is None,
            decreases self.buf@.len() + (if more { 1int } else { 0int }),
        {
            let ghost before = self.buf@;
            let n = self.buf.len();
            proof {
                lemma_find(before, end_marker());
                lemma_find(before, start_marker());
            }
            match find_subsequence(self.buf.as_slice(), end.as_slice()) {
                None => {
                    more = false;
                    assert(frames_view(out@) + seq![] =~= frames_view(out@));
                },
                Some(e) => {
                    if !self.synced {
                        self.synced = true;
                        self.buf.clear();
                        assert(frames_view(out@) + seq![] =~= frames_view(out@));
                    } else {
                        match find_subsequence(self.buf.as_slice(), start.as_slice()) {
                            None => {
                                self.buf.truncate(e);
                                let mut logs: Vec<u8> = Vec::new();
                                std::mem::swap(&mut self.buf, &mut logs);
                                let ghost prev = out@;
                                out.push(Frame::Log(logs));
                                assert(frames_view(out@) =~= frames_view(prev) + seq![
                                    FrameView::Log(before.subrange(0, e as int)),
                                ]);
                                assert(frames_view(out@) + seq![] =~= frames_view(out@));
                            },
                            Some(s) => {
                                if e < s + MARKER_LEN {
                                    self.buf.clear();
                                    assert(frames_view(out@) + seq![] =~= frames_view(out@));
                                } else {
                                    let rest = self.buf.split_off(e + MARKER_LEN);
                                    let mut payload = self.buf.split_off(s + MARKER_LEN);
                                    payload.truncate(e - s - MARKER_LEN);
                                    self.buf.truncate(s);
                                    let mut logs = rest;
                                    std::mem::swap(&mut self.buf, &mut logs);
                                    assert(logs@ =~= before.subrange(0, s as int));
                                    assert(payload@ =~= before.subrange(s + 16, e as int));
                                    let ghost prev = out@;
                                    out.push(Frame::Log(logs));
                                    if payload.len() == PAYLOAD_LEN {
                                        out.push(Frame::Screen(payload));
                                    }
                                    assert(frames_view(out@) =~= frames_view(prev)
                                        + capture_frames(
                                        before.subrange(0, s as int),
                                        before.subrange(s + 16, e as int),
                                    ));
                                    assert(frames_view(out@) + process(true, self.buf@).0
                                        =~= frames_view(prev) + process(true, before).0);
                                }
                            },
                        }
                    }
                },
            }
        }
        proof {
            lemma_process_leaves_no_end(old(self)@.0, old(self)@.1 + bytes@);
        }
        out
    }
}

/// Whether processing `buf` keeps every byte that follows an end marker:
/// each end marker that makes the parser clear its buffer (to synchronize, to
/// emit log text without a capture, or on markers out of order) ends the buffer.
pub open spec fn no_tail_loss(synced: bool, buf: Seq<u8>) -> bool
    decreases buf.len()
    via no_tail_loss_decreases
{
    match find(buf, end_marker()) {
        None => true,
        Some(e) => match find(buf, start_marker()) {
            Some(s) => if synced && e >= s + 16 {
                no_tail_loss(true, buf.subrange(e + 16, buf.len() as int))
            } else {
                e + 16 == buf.len()
            },
            None => e + 16 == buf.len(),
        },
    }
}

#[via_fn]
proof fn no_tail_loss_decreases(synced: bool, buf: Seq<u8>) {
    lemma_find(buf, end_marker());
}

/// A first occurrence in `x` stays the first one in `x + b`; a first
/// occurrence in `x + b` that lies within `x` is one in `x` too.
pub proof fn lemma_find_extend(x: Seq<u8>, b: Seq<u8>, pat: Seq<u8>)
    ensures
        find(x, pat) matches Some(k) ==> find(x + b, pat) == Some(k),
        find(x, pat) is None ==> match find(x + b, pat) {
            Some(k) => k + pat.len() > x.len(),
            None => true,
        },
{
    lemma_find(x, pat);
    lemma_find(x + b, pat);
    assert forall|j: int| j + pat.len() <= x.len() implies occurs_at(x, pat, j) == occurs_at(
        x + b,
        pat,
        j,
    ) by {
        if 0 <= j {
            assert((x + b).subrange(j, j + pat.len()) =~= x.subrange(j, j + pat.len()));
        }
    }
    match find(x, pat) {
        Some(k) => {
            match find(x + b, pat) {
                Some(k2) => {
                    if k2 < k {
                        assert(occurs_at(x, pat, k2));
                    } else if k < k2 {
                        assert(occurs_at(x + b, pat, k));
                    }
                },
                None => {
                    assert(occurs_at(x + b, pat, k));
                },
            }
        },
        None => {
            match find(x + b, pat) {
                Some(k2) => {
                    if k2 + pat.len() <= x.len() {
                        assert(occurs_at(x, pat, k2));
                    }
                },
                None => {},
            }
        },
    }
}

proof fn lemma_process_empty(synced: bool)
    ensures
        process(synced, Seq::<u8>::empty()) == (Seq::<FrameView>::empty(), synced, Seq::<u8>::empty()),
{
    reveal_with_fuel(find_from, 2);
}

/// Induction behind `lemma_chunk_independence`.
proof fn lemma_split_feed(synced: bool, x: Seq<u8>, b: Seq<u8>)
    requires
        no_tail_loss(synced, x + b),
    ensures
        ({
            let p = process(synced, x);
            let q = process(p.1, p.2 + b);
            (p.0 + q.0, q.1, q.2) == process(synced, x + b) && no_tail_loss(p.1, p.2 + b)
        }),
    decreases x.len(),
{
    let xb = x + b;
    lemma_find(x, end_marker());
    lemma_find(x, start_marker());
    lemma_find_extend(x, b, end_marker());
    lemma_find_extend(x, b, start_marker());
    match find(x, end_marker()) {
        None => {
            assert(Seq::<FrameView>::empty() + process(synced, xb).0 =~= process(synced, xb).0);
        },
        Some(e) => {
            let valid = synced && match find(x, start_marker()) {
                Some(s) => e >= s + 16,
                None => false,
            };
            if valid {
                let s = find(x, start_marker())->Some_0;
                let rx = x.subrange(e + 16, x.len() as int);
                assert(xb.subrange(e + 16, xb.len() as int) =~= rx + b);
                assert(xb.subrange(0, s) =~= x.subrange(0, s));
                assert(xb.subrange(s + 16, e) =~= x.subrange(s + 16, e));
                lemma_split_feed(true, rx, b);
                let p = process(true, rx);
                let q = process(p.1, p.2 + b);
                let cap = capture_frames(x.subrange(0, s), x.subrange(s + 16, e));
                assert((cap + p.0) + q.0 =~= cap + (p.0 + q.0));
            } else {
                assert(b.len() == 0) by {
                    lemma_find(xb, start_marker());
                }
                assert(xb =~= x);
                lemma_process_empty(true);
                let p = process(synced, x);
                assert(p.2 + b =~= Seq::<u8>::empty());
                assert(p.0 + Seq::<FrameView>::empty() =~= p.0);
                reveal_with_fuel(find_from, 2);
            }
        },
    }
}

/// The bytes of `chunks` one after another.
pub open spec fn concat(chunks: Seq<Seq<u8>>) -> Seq<u8>
    decreases chunks.len(),
{
    if chunks.len() == 0 {
        seq![]
    } else {
        chunks[0] + concat(chunks.drop_first())
    }
}

/// What feeding `chunks` one `feed` at a time emits, and the state it leaves.
pub open spec fn feed_each(synced: bool, buf: Seq<u8>, chunks: Seq<Seq<u8>>) -> (
    Seq<FrameView>,
    bool,
    Seq<u8>,
)
    decreases chunks.len(),
{
    if chunks.len() == 0 {
        (seq![], synced, buf)
    } else {
        let p = process(synced, buf + chunks[0]);
        let q = feed_each(p.1, p.2, chunks.drop_first());
        (p.0 + q.0, q.1, q.2)
    }
}

/// Chunk-size independence: feeding a stream in any chunks, down to one
/// byte at a time, emits the same frames in the same order and leaves the
/// same state as feeding it in one call, for every stream whose end markers
/// never make the parser drop the bytes that follow them.
pub proof fn lemma_chunk_independence(synced: bool, buf: Seq<u8>, chunks: Seq<Seq<u8>>)
    requires
        find(buf, end_marker()) is None,
        no_tail_loss(synced, buf + concat(chunks)),
    ensures
        feed_each(synced, buf, chunks) == process(synced, buf + concat(chunks)),
    decreases chunks.len(),
{
    if chunks.len() == 0 {
        assert(buf + concat(chunks) =~= buf);
    } else {
        let c0 = chunks[0];
        let rest = chunks.drop_first();
        assert(buf + concat(chunks) =~= (buf + c0) + concat(rest));
        lemma_split_feed(synced, buf + c0, concat(rest));
        let p = process(synced, buf + c0);
        lemma_process_leaves_no_end(synced, buf + c0);
        lemma_chunk_independence(p.1, p.2, rest);
    }
}

/// Before synchronization nothing is emitted: bytes are only buffered until an
/// end marker is seen, and the first end marker clears the buffer and
/// synchronizes the parser.
pub proof fn lemma_unsynced_feed(buf: Seq<u8>, bytes: Seq<u8>)
    ensures
        find(buf + bytes, end_marker()) is None ==> process(false, buf + bytes) == (
            Seq::<FrameView>::empty(),
            false,
            buf + bytes,
        ),
        find(buf + bytes, end_marker()) is Some ==> process(false, buf + bytes) == (
            Seq::<FrameView>::empty(),
            true,
            Seq::<u8>::empty(),
        ),
{
}

/// A synchronized capture with a start marker at `s`, its end marker at `e`
/// and a payload of exactly `PAYLOAD_LEN` bytes emits one log chunk of the
/// bytes before `s`, then one screen payload, then whatever follows the end
/// marker yields.
pub proof fn lemma_full_capture(buf: Seq<u8>, s: int, e: int)
    requires
        find(buf, start_marker()) == Some(s),
        find(buf, end_marker()) == Some(e),
        e - s - 16 == PAYLOAD_LEN,
    ensures
        ({
            let rest = process(true, buf.subrange(e + 16, buf.len() as int));
            process(true, buf) == (
                seq![FrameView::Log(buf.subrange(0, s)), FrameView::Screen(buf.subrange(s + 16, e))]
                    + rest.0,
                rest.1,
                rest.2,
            )
        }),
{
    lemma_find(buf, start_marker());
    lemma_find(buf, end_marker());
}

/// A synchronized capture whose payload is not `PAYLOAD_LEN` bytes long still
/// emits the log chunk before it, emits no screen payload, and moves the
/// buffer past its end marker.
pub proof fn lemma_short_capture(buf: Seq<u8>, s: int, e: int)
    requires
        find(buf, start_marker()) == Some(s),
        find(buf, end_marker()) == Some(e),
        s + 16 <= e,
        e - s - 16 != PAYLOAD_LEN,
    ensures
        ({
            let rest = process(true, buf.subrange(e + 16, buf.len() as int));
            process(true, buf) == (seq![FrameView::Log(buf.subrange(0, s))] + rest.0, rest.1, rest.2)
        }),
{
    lemma_find(buf, start_marker());
    lemma_find(buf, end_marker());
}

proof fn lemma_marker_bytes()
    ensures
        start_marker()[0] == 116,
        start_marker()[1] == 104,
        start_marker()[2] == 105,
        start_marker()[3] == 115,
        start_marker()[4] == 105,
        start_marker()[5] == 115,
        start_marker()[6] == 97,
        start_marker()[7] == 115,
        start_marker()[8] == 116,
        start_marker()[9] == 97,
        start_marker()[10] == 114,
        start_marker()[11] == 116,
        start_marker()[12] == 112,
        start_marker()[13] == 97,
        start_marker()[14] == 99,
        start_marker()[15] == 107,
        end_marker()[0] == 116,
        end_marker()[1] == 104,
        end_marker()[2] == 105,
        end_marker()[3] == 115,
        end_marker()[4] == 105,
        end_marker()[5] == 115,
        end_marker()[6] == 97,
        end_marker()[7] == 101,
        end_marker()[8] == 110,
        end_marker()[9] == 100,
        end_marker()[10] == 100,
        end_marker()[11] == 100,
        end_marker()[12] == 112,
        end_marker()[13] == 97,
        end_marker()[14] == 99,
        end_marker()[15] == 107,
{
}

/// A start marker cannot begin in the 15 bytes before another one.
proof fn lemma_no_start_straddle(buf: Seq<u8>, q: int, j: int)
    requires
        q - 16 < j < q,
        q + 2 <= buf.len(),
        buf[q] == 116,
        buf[q + 1] == 104,
    ensures
        !occurs_at(buf, start_marker(), j),
{
    lemma_marker_bytes();
    if occurs_at(buf, start_marker(), j) {
        let d = q - j;
        assert(buf.subrange(j, j + 16)[d] == buf[q]);
        if d < 15 {
            assert(buf.subrange(j, j + 16)[d + 1] == buf[q + 1]);
        }
    }
}

/// An end marker cannot cover a `t` anywhere but at its first byte.
proof fn lemma_no_end_over_t(buf: Seq<u8>, q: int, j: int)
    requires
        j < q < j + 16,
        0 <= q < buf.len(),
        buf[q] == 116,
    ensures
        !occurs_at(buf, end_marker(), j),
{
    lemma_marker_bytes();
    if occurs_at(buf, end_marker(), j) {
        assert(buf.subrange(j, j + 16)[q - j] == buf[q]);
    }
}

/// An end marker cannot begin inside a start marker.
proof fn lemma_no_end_in_start(buf: Seq<u8>, q: int, j: int)
    requires
        q <= j < q + 16,
        0 <= q,
        q + 16 <= buf.len(),
        buf.subrange(q, q + 16) == start_marker(),
    ensures
        !occurs_at(buf, end_marker(), j),
{
    lemma_marker_bytes();
    if occurs_at(buf, end_marker(), j) {
        let d = j - q;
        assert(buf.subrange(q, q + 16)[d] == buf[j]);
        assert(buf.subrange(j, j + 16)[0] == buf[j]);
        if d + 1 < 16 {
            assert(buf.subrange(q, q + 16)[d + 1] == buf[j + 1]);
            assert(buf.subrange(j, j + 16)[1] == buf[j + 1]);
        }
        if d + 7 < 16 {
            assert(buf.subrange(q, q + 16)[d + 7] == buf[j + 7]);
            assert(buf.subrange(j, j + 16)[7] == buf[j + 7]);
        }
    }
}

/// Where the markers of a capture `l + START + payload + END + r` are found:
/// the start marker right after `l` and the end marker right after the
/// payload, as long as `l` holds neither marker and the payload holds no end
/// marker. The markers cannot overlap each other or themselves, so no
/// occurrence straddles two parts.
pub proof fn lemma_capture_layout(l: Seq<u8>, payload: Seq<u8>, r: Seq<u8>)
    requires
        forall|j: int| !occurs_at(l, start_marker(), j),
        forall|j: int| !occurs_at(l, end_marker(), j),
        forall|j: int| !occurs_at(payload, end_marker(), j),
    ensures
        ({
            let buf = l + start_marker() + payload + end_marker() + r;
            let e = l.len() + 16 + payload.len() as int;
            &&& find(buf, start_marker()) == Some(l.len() as int)
            &&& find(buf, end_marker()) == Some(e)
            &&& buf.subrange(0, l.len() as int) == l
            &&& buf.subrange(l.len() + 16 as int, e) == payload
            &&& buf.subrange(e + 16, buf.len() as int) == r
        }),
{
    let buf = l + start_marker() + payload + end_marker() + r;
    let ll = l.len() as int;
    let e = ll + 16 + payload.len();
    assert(buf.subrange(ll, ll + 16) =~= start_marker());
    assert(buf.subrange(e, e + 16) =~= end_marker());
    assert(buf.subrange(0, ll) =~= l);
    assert(buf.subrange(ll + 16, e) =~= payload);
    assert(buf.subrange(e + 16, buf.len() as int) =~= r);
    lemma_first_start(buf, l, ll);
    lemma_first_end(buf, l, payload, ll, e);
}

proof fn lemma_first_start(buf: Seq<u8>, l: Seq<u8>, ll: int)
    requires
        ll == l.len(),
        ll + 16 <= buf.len(),
        buf.subrange(0, ll) == l,
        buf.subrange(ll, ll + 16) == start_marker(),
        forall|j: int| !occurs_at(l, start_marker(), j),
    ensures
        find(buf, start_marker()) == Some(ll),
{
    let st = start_marker();
    lemma_marker_bytes();
    assert(buf[ll] == buf.subrange(ll, ll + 16)[0]);
    assert(buf[ll + 1] == buf.subrange(ll, ll + 16)[1]);
    assert forall|j: int| 0 <= j < ll implies !occurs_at(buf, st, j) by {
        if j + 16 <= ll {
            assert(buf.subrange(j, j + 16) =~= l.subrange(j, j + 16));
            assert(!occurs_at(l, st, j));
        } else {
            lemma_no_start_straddle(buf, ll, j);
        }
    }
    assert(occurs_at(buf, st, ll));
    lemma_find(buf, st);
    if let Some(k) = find(buf, st) {
        assert(k == ll);
    }
}

proof fn lemma_first_end(buf: Seq<u8>, l: Seq<u8>, payload: Seq<u8>, ll: int, e: int)
    requires
        ll == l.len(),
        e == ll + 16 + payload.len(),
        e + 16 <= buf.len(),
        buf.subrange(0, ll) == l,
        buf.subrange(ll, ll + 16) == start_marker(),
        buf.subrange(ll + 16, e) == payload,
        buf.subrange(e, e + 16) == end_marker(),
        forall|j: int| !occurs_at(l, end_marker(), j),
        forall|j: int| !occurs_at(payload, end_marker(), j),
    ensures
        find(buf, end_marker()) == Some(e),
{
    let en = end_marker();
    lemma_marker_bytes();
    assert(buf[ll] == buf.subrange(ll, ll + 16)[0]);
    assert(buf[e] == buf.subrange(e, e + 16)[0]);
    assert forall|j: int| 0 <= j < e implies !occurs_at(buf, en, j) by {
        if j + 16 <= ll {
            assert(buf.subrange(j, j + 16) =~= l.subrange(j, j + 16));
            assert(!occurs_at(l, en, j));
        } else if j < ll {
            lemma_no_end_over_t(buf, ll, j);
        } else if j < ll + 16 {
            lemma_no_end_in_start(buf, ll, j);
        } else if j + 16 <= e {
            assert(buf.subrange(j, j + 16) =~= payload.subrange(j - ll - 16, j - ll));
            assert(!occurs_at(payload, en, j - ll - 16));
        } else {
            lemma_no_end_over_t(buf, e, j);
        }
    }
    assert(occurs_at(buf, en, e));
    lemma_find(buf, en);
    if let Some(k) = find(buf, en) {
        assert(k == e);
    }
}

/// A synchronized capture `l + START + payload + END + r`, with neither
/// marker in `l` and no end marker in the payload, emits one log chunk of `l`,
/// then one screen payload exactly when the payload has `PAYLOAD_LEN` bytes,
/// and then whatever `r` yields: the buffer moves past the end marker
/// whatever the payload's length.
pub proof fn lemma_capture_frames(l: Seq<u8>, payload: Seq<u8>, r: Seq<u8>)
    requires
        forall|j: int| !occurs_at(l, start_marker(), j),
        forall|j: int| !occurs_at(l, end_marker(), j),
        forall|j: int| !occurs_at(payload, end_marker(), j),
    ensures
        ({
            let rest = process(true, r);
            process(true, l + start_marker() + payload + end_marker() + r) == (
                capture_frames(l, payload) + rest.0,
                rest.1,
                rest.2,
            )
        }),
{
    lemma_capture_layout(l, payload, r);
}

} // verus!
