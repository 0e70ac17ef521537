//! The streaming status client's framing state.
//!
//! Bytes arrive from the endpoint in arbitrary chunks. A carry-over buffer
//! assembles them; every newline ends one frame, whose trimmed, non-empty
//! body is decoded as a status record, and the unconsumed suffix stays in
//! the buffer for the next read. Splitting the input differently across
//! reads can never change what comes out — that invariance is proved here.
//! Connect and disconnect are reported to the reconciler through two
//! synthesized records for the stream's own resource name.

use vstd::prelude::*;
use crate::record::is_ws;
use crate::record::parse_record;
use crate::record::ws_end;
use crate::record::read_record;
use crate::record::PartialMsg;
use crate::record::RecordV;

verus! {

/// The position of the first newline at or after `i`, if any.
pub open spec fn first_nl(s: Seq<u8>, i: int) -> Option<int>
    decreases s.len() - i,
{
    if i < 0 || i >= s.len() {
        None
    } else if s[i] == 10 {
        Some(i)
    } else {
        first_nl(s, i + 1)
    }
}

/// The complete frames in `s` — the runs before each newline — and the
/// unconsumed suffix after the last newline.
pub open spec fn split_frames(s: Seq<u8>) -> (Seq<Seq<u8>>, Seq<u8>)
    decreases s.len(),
{
    match first_nl(s, 0) {
        Some(p) => {
            if 0 <= p < s.len() {
                let rest = split_frames(s.skip(p + 1));
                (seq![s.take(p)] + rest.0, rest.1)
            } else {
                (Seq::<Seq<u8>>::empty(), s)
            }
        },
        None => (Seq::<Seq<u8>>::empty(), s),
    }
}

/// One past the last non-blank byte at or before `j`, scanning backwards.
pub open spec fn ws_rend(s: Seq<u8>, j: int) -> int
    decreases j,
{
    if j <= 0 {
        0
    } else if is_ws(s[j - 1]) {
        ws_rend(s, j - 1)
    } else {
        j
    }
}

/// `l` with blank bytes removed from both ends.
pub open spec fn trim_spec(l: Seq<u8>) -> Seq<u8> {
    let a = ws_end(l, 0);
    let b = ws_rend(l, l.len() as int);
    if a >= b {
        Seq::<u8>::empty()
    } else {
        l.subrange(a, b)
    }
}

/// The records the frames yield, in order: each frame trimmed, empty ones
/// passed over, and well-formed ones decoded; a malformed frame is dropped
/// and decoding continues.
pub open spec fn frame_records(lines: Seq<Seq<u8>>) -> Seq<RecordV>
    decreases lines.len(),
{
    if lines.len() == 0 {
        Seq::<RecordV>::empty()
    } else {
        let head = trim_spec(lines[0]);
        let rest = frame_records(lines.skip(1));
        if head.len() == 0 {
            rest
        } else {
            match parse_record(head) {
                Some(r) => seq![r] + rest,
                None => rest,
            }
        }
    }
}

/// What one read does to the framing state: the records decoded out of the
/// buffered bytes followed by the chunk, and the buffer kept for the next
/// read.
pub open spec fn ingest_spec(buf: Seq<u8>, chunk: Seq<u8>) -> (Seq<RecordV>, Seq<u8>) {
    let fr = split_frames(buf + chunk);
    (frame_records(fr.0), fr.1)
}

/// The resource name under which the stream reports its own connectivity.
pub open spec fn self_resource() -> Seq<u8> {
    seq![114u8, 97u8, 116u8, 97u8, 116u8, 111u8, 115u8, 107u8, 114u8]
}

/// The client's carry-over framing state for the streaming status
/// endpoint.
pub struct RatatoskrSocket {
    pub(crate) recv_buf: Vec<u8>,
}

impl View for RatatoskrSocket {
    type V = Seq<u8>;

    closed spec fn view(&self) -> Seq<u8> {
        self.recv_buf@
    }
}

/// Build the resource-name bytes of the stream itself.
pub fn self_resource_bytes() -> (r: Vec<u8>)
    ensures
        r@ == self_resource(),
{
    let mut v: Vec<u8> = Vec::new();
    v.push(114);
    v.push(97);
    v.push(116);
    v.push(97);
    v.push(116);
    v.push(111);
    v.push(115);
    v.push(107);
    v.push(114);
    proof {
        assert(v@ =~= self_resource());
    }
    v
}

impl RatatoskrSocket {
    /// A client with nothing buffered.
    pub fn new() -> (s: RatatoskrSocket)
        ensures
            s@ == Seq::<u8>::empty(),
    {
        RatatoskrSocket { recv_buf: Vec::new() }
    }

    /// The record the client synthesizes when its connection comes up: its
    /// own resource at warning zero.
    pub fn connect_record() -> (r: PartialMsg)
        ensures
            r@.resource == self_resource(),
            r@.warning == 0,
            r@.icon == Seq::<u8>::empty(),
            !r@.has_data,
            r@.eta is None,
            r@.state is None,
    {
        PartialMsg {
            resource: self_resource_bytes(),
            warning: 0,
            icon: Vec::new(),
            has_data: false,
            eta: None,
            state: None,
        }
    }

    /// The record the client synthesizes when the peer closes or the
    /// connection fails: its own resource at full warning.
    pub fn disconnect_record() -> (r: PartialMsg)
        ensures
            r@.resource == self_resource(),
            r@.warning == 1000,
            r@.icon == Seq::<u8>::empty(),
            !r@.has_data,
            r@.eta is None,
            r@.state is None,
    {
        PartialMsg {
            resource: self_resource_bytes(),
            warning: 1000,
            icon: Vec::new(),
            has_data: false,
            eta: None,
            state: None,
        }
    }
}


/// Find the first newline at or after `i`.
fn scan_nl(s: &[u8], i: usize) -> (r: Option<usize>)
    requires
        i <= s@.len(),
    ensures
        match r {
            Some(p) => first_nl(s@, i as int) == Some(p as int) && i <= p < s@.len(),
            None => first_nl(s@, i as int) is None,
        },
    decreases s@.len() - i,
{
    if i >= s.len() {
        None
    } else if s[i] == 10 {
        Some(i)
    } else {
        scan_nl(s, i + 1)
    }
}

/// Find where the trailing blank run before `j` begins.
fn scan_ws_rev(s: &[u8], j: usize) -> (r: usize)
    requires
        j <= s@.len(),
    ensures
        r == ws_rend(s@, j as int),
        r <= j,
    decreases j,
{
    if j == 0 {
        return 0;
    }
    let b = s[j - 1];
    if b == 32 || b == 9 || b == 10 || b == 13 {
        scan_ws_rev(s, j - 1)
    } else {
        j
    }
}

/// Copy the byte range `[a, b)` of `v`.
fn copy_range(v: &Vec<u8>, a: usize, b: usize) -> (r: Vec<u8>)
    requires
        a <= b <= v@.len(),
    ensures
        r@ == v@.subrange(a as int, b as int),
{
    let mut out: Vec<u8> = Vec::new();
    let mut k: usize = a;
    proof {
        assert(out@ =~= v@.subrange(a as int, a as int));
    }
    while k < b
        invariant
            a <= k <= b <= v@.len(),
            out@ == v@.subrange(a as int, k as int),
        decreases b - k,
    {
        out.push(v[k]);
        proof {
            assert(v@.subrange(a as int, k as int + 1) =~= v@.subrange(a as int, k as int).push(
                v@[k as int],
            ));
        }
        k = k + 1;
    }
    out
}

/// Copy `v` with blank bytes removed from both ends.
fn trim_bytes(v: &Vec<u8>) -> (r: Vec<u8>)
    ensures
        r@ == trim_spec(v@),
{
    let a = crate::record::scan_ws(v.as_slice(), 0);
    let b = scan_ws_rev(v.as_slice(), v.len());
    if a >= b {
        let out: Vec<u8> = Vec::new();
        proof {
            assert(out@ =~= trim_spec(v@));
        }
        out
    } else {
        copy_range(v, a, b)
    }
}

impl RatatoskrSocket {
    /// Feed one chunk read from the endpoint: every newline-terminated
    /// frame now complete is decoded, in order, and the tail past the last
    /// newline stays buffered for the next read.
    pub fn ingest(&mut self, chunk: &[u8]) -> (out: Vec<PartialMsg>)
        ensures
            ({
                let spec = ingest_spec(old(self)@, chunk@);
                &&& out@.map_values(|m: PartialMsg| m@) == spec.0
                &&& final(self)@ == spec.1
            }),
    {
        let ghost buf0 = self@;
        let ghost all0 = buf0 + chunk@;
        let mut k: usize = 0;
        proof {
            assert(self@ =~= buf0 + chunk@.take(0));
        }
        while k < chunk.len()
            invariant
                k <= chunk@.len(),
                self@ == buf0 + chunk@.take(k as int),
            decreases chunk@.len() - k,
        {
            self.recv_buf.push(chunk[k]);
            proof {
                assert(buf0 + chunk@.take(k as int + 1) =~= (buf0 + chunk@.take(k as int)).push(
                    chunk@[k as int],
                ));
            }
            k = k + 1;
        }
        proof {
            assert(chunk@.take(chunk@.len() as int) =~= chunk@);
            assert(self@ == all0);
        }
        let mut out: Vec<PartialMsg> = Vec::new();
        proof {
            assert(out@.map_values(|m: PartialMsg| m@) =~= Seq::<RecordV>::empty());
        }
        loop
            invariant
                all0 == buf0 + chunk@,
                buf0 == old(self)@,
                split_frames(all0).1 == split_frames(self@).1,
                frame_records(split_frames(all0).0) == out@.map_values(|m: PartialMsg| m@)
                    + frame_records(split_frames(self@).0),
            ensures
                all0 == buf0 + chunk@,
                buf0 == old(self)@,
                first_nl(self@, 0) is None,
                split_frames(all0).1 == split_frames(self@).1,
                frame_records(split_frames(all0).0) == out@.map_values(|m: PartialMsg| m@)
                    + frame_records(split_frames(self@).0),
            decreases self@.len(),
        {
            let ghost cur = self@;
            let p = match scan_nl(self.recv_buf.as_slice(), 0) {
                Some(p) => p,
                None => {
                    break ;
                },
            };
            let line = copy_range(&self.recv_buf, 0, p);
            let trimmed = trim_bytes(&line);
            let ghost frames = split_frames(cur);
            let ghost rest = split_frames(cur.skip(p + 1));
            proof {
                assert(line@ =~= cur.take(p as int));
                assert(frames == (seq![cur.take(p as int)] + rest.0, rest.1));
                assert((seq![cur.take(p as int)] + rest.0).skip(1) =~= rest.0);
                assert((seq![cur.take(p as int)] + rest.0)[0] == cur.take(p as int));
            }
            if trimmed.len() > 0 {
                match read_record(trimmed.as_slice()) {
                    Some(m) => {
                        let ghost before = out@.map_values(|m: PartialMsg| m@);
                        out.push(m);
                        proof {
                            assert(out@.map_values(|m: PartialMsg| m@) =~= before.push(m@));
                            assert(before.push(m@) =~= before + seq![m@]);
                        }
                    },
                    None => {},
                }
            }
            let n = self.recv_buf.len();
            let suffix = copy_range(&self.recv_buf, p + 1, n);
            self.recv_buf = suffix;
            proof {
                assert(self@ =~= cur.skip(p as int + 1));
                assert(frame_records(frames.0) == (if trim_spec(cur.take(p as int)).len() == 0 {
                    frame_records(rest.0)
                } else {
                    match parse_record(trim_spec(cur.take(p as int))) {
                        Some(r) => seq![r] + frame_records(rest.0),
                        None => frame_records(rest.0),
                    }
                }));
                assert(forall|x: Seq<RecordV>, y: RecordV, z: Seq<RecordV>|
                    (x + seq![y]) + z =~= x + (seq![y] + z));
            }
        }
        proof {
            assert(frame_records(Seq::<Seq<u8>>::empty()) =~= Seq::<RecordV>::empty());
            assert(out@.map_values(|m: PartialMsg| m@) + Seq::<RecordV>::empty() =~= out@.map_values(
                |m: PartialMsg| m@,
            ));
        }
        out
    }
}


/// Where `first_nl` finds a newline, it lies in range and is a newline.
pub proof fn lemma_first_nl_bounds(s: Seq<u8>, i: int)
    requires
        0 <= i,
    ensures
        match first_nl(s, i) {
            Some(p) => i <= p < s.len() && s[p] == 10,
            None => true,
        },
    decreases s.len() - i,
{
    if i < s.len() && s[i] != 10 {
        lemma_first_nl_bounds(s, i + 1);
    }
}

/// A newline found in `s` is found at the same place once `t` is appended;
/// where `s` has none, the first newline of the whole lies in `t`.
pub proof fn lemma_first_nl_concat(s: Seq<u8>, t: Seq<u8>, i: int)
    requires
        0 <= i <= s.len(),
    ensures
        first_nl(s + t, i) == (match first_nl(s, i) {
            Some(p) => Some(p),
            None => match first_nl(t, 0) {
                Some(q) => Some(s.len() + q),
                None => None,
            },
        }),
    decreases s.len() + t.len() - i,
{
    let u = s + t;
    if i < s.len() {
        assert(u[i] == s[i]);
        if s[i] == 10 {
        } else {
            lemma_first_nl_concat(s, t, i + 1);
        }
    } else {
        assert(first_nl(s, i) is None);
        lemma_first_nl_shift(s, t, 0);
    }
}

/// Scanning the concatenation from the seam onwards is scanning `t`.
pub proof fn lemma_first_nl_shift(s: Seq<u8>, t: Seq<u8>, j: int)
    requires
        0 <= j <= t.len(),
    ensures
        first_nl(s + t, s.len() + j) == (match first_nl(t, j) {
            Some(q) => Some(s.len() + q),
            None => None,
        }),
    decreases t.len() - j,
{
    let u = s + t;
    if j < t.len() {
        assert(u[s.len() + j] == t[j]);
        if t[j] == 10 {
        } else {
            lemma_first_nl_shift(s, t, j + 1);
        }
    }
}

/// Frames distribute over concatenation: the whole input's frames are the
/// first part's frames followed by what its remainder plus the second part
/// yields.
pub proof fn lemma_split_frames_concat(s: Seq<u8>, t: Seq<u8>)
    ensures
        ({
            let f = split_frames(s);
            let g = split_frames(f.1 + t);
            split_frames(s + t) == (f.0 + g.0, g.1)
        }),
    decreases s.len(),
{
    let f = split_frames(s);
    let g = split_frames(f.1 + t);
    lemma_first_nl_concat(s, t, 0);
    lemma_first_nl_bounds(s, 0);
    lemma_first_nl_bounds(s + t, 0);
    match first_nl(s, 0) {
        Some(p) => {
            assert(0 <= p < s.len());
            assert((s + t).take(p) =~= s.take(p));
            assert((s + t).skip(p + 1) =~= s.skip(p + 1) + t);
            lemma_split_frames_concat(s.skip(p + 1), t);
            let fr = split_frames(s.skip(p + 1));
            let gr = split_frames(fr.1 + t);
            assert(seq![s.take(p)] + (fr.0 + gr.0) =~= (seq![s.take(p)] + fr.0) + gr.0);
        },
        None => {
            assert(f.1 == s);
            assert(Seq::<Seq<u8>>::empty() + g.0 =~= g.0);
            match first_nl(t, 0) {
                Some(q) => {
                    assert(first_nl(s + t, 0) == Some(s.len() + q));
                    assert(first_nl(f.1 + t, 0) == Some(s.len() + q)) by {
                        lemma_first_nl_concat(s, t, 0);
                    }
                },
                None => {
                    assert(first_nl(s + t, 0) is None);
                },
            }
        },
    }
}

/// Records distribute over frame concatenation.
pub proof fn lemma_frame_records_concat(x: Seq<Seq<u8>>, y: Seq<Seq<u8>>)
    ensures
        frame_records(x + y) == frame_records(x) + frame_records(y),
    decreases x.len(),
{
    if x.len() == 0 {
        assert(x + y =~= y);
        assert(Seq::<RecordV>::empty() + frame_records(y) =~= frame_records(y));
    } else {
        assert((x + y)[0] == x[0]);
        assert((x + y).skip(1) =~= x.skip(1) + y);
        assert((x + y).len() > 0);
        lemma_frame_records_concat(x.skip(1), y);
        let head = trim_spec(x[0]);
        if head.len() == 0 {
        } else {
            match parse_record(head) {
                Some(r) => {
                    assert(seq![r] + (frame_records(x.skip(1)) + frame_records(y)) =~= (seq![r]
                        + frame_records(x.skip(1))) + frame_records(y));
                },
                None => {},
            }
        }
    }
}

/// Splitting the byte stream differently across reads never changes what
/// comes out: feeding `a` and then `b` yields the same records, in the same
/// order, and the same carried-over buffer, as feeding `a + b` in one read.
pub proof fn lemma_ingest_split(buf: Seq<u8>, a: Seq<u8>, b: Seq<u8>)
    ensures
        ({
            let whole = ingest_spec(buf, a + b);
            let first = ingest_spec(buf, a);
            let second = ingest_spec(first.1, b);
            &&& whole.0 == first.0 + second.0
            &&& whole.1 == second.1
        }),
{
    assert(buf + (a + b) =~= (buf + a) + b);
    lemma_split_frames_concat(buf + a, b);
    let f = split_frames(buf + a);
    let g = split_frames(f.1 + b);
    lemma_frame_records_concat(f.0, g.0);
}


impl RatatoskrSocket {
    /// The bytes carried over, waiting for their closing newline.
    pub fn buffered(&self) -> (r: &Vec<u8>)
        ensures
            r@ == self@,
    {
        &self.recv_buf
    }
}

} // verus!
