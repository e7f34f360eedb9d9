//! UTF-8 validation across input chunks: at most three unfinished character bytes survive
//! between reads, and the end of input validates their completion.
use crate::text::lemma_encode_concat;
use vstd::prelude::*;
use vstd::utf8::{
    codepoint_width_2, codepoint_width_3, codepoint_width_4, decode_first_codepoint, decode_utf8,
    decode_utf8_encode_utf8, encode_utf8, encode_utf8_valid_utf8, length_of_first_scalar,
    pop_first_scalar, valid_first_scalar, valid_utf8,
};

verus! {

/// Whether a byte continues a multi-byte character.
pub open spec fn continuation(b: u8) -> bool {
    0x80 <= b <= 0xbf
}

/// Whether `b` may follow lead byte `lead`: the ranges that exclude overlong forms, surrogates
/// and values past U+10FFFF.
pub open spec fn second_ok(lead: u8, b: u8) -> bool {
    if lead == 0xe0 {
        0xa0 <= b <= 0xbf
    } else if lead == 0xed {
        0x80 <= b <= 0x9f
    } else if lead == 0xf0 {
        0x90 <= b <= 0xbf
    } else if lead == 0xf4 {
        0x80 <= b <= 0x8f
    } else {
        continuation(b)
    }
}

/// Whether bytes are the unfinished start of a multi-byte character: a lead byte of a 2-, 3- or
/// 4-byte character followed by fewer bytes than it needs, each allowed where it stands.
pub open spec fn partial(t: Seq<u8>) -> bool {
    ||| t.len() == 1 && 0xc2 <= t[0] <= 0xf4
    ||| t.len() == 2 && 0xe0 <= t[0] <= 0xf4 && second_ok(t[0], t[1])
    ||| t.len() == 3 && 0xf0 <= t[0] <= 0xf4 && second_ok(t[0], t[1]) && continuation(t[2])
}

/// Whether a chunk ends `k` bytes into an unfinished character after valid text.
pub open spec fn splits_at(chunk: Seq<u8>, k: int) -> bool {
    1 <= k <= 3 && k <= chunk.len() && partial(chunk.skip(chunk.len() - k)) && valid_utf8(
        chunk.take(chunk.len() - k),
    )
}

/// Length of the unfinished character at the end of a chunk after valid text (the shortest
/// such), or 0 when there is none.
pub open spec fn tail_len(chunk: Seq<u8>) -> int {
    if splits_at(chunk, 1) {
        1
    } else if splits_at(chunk, 2) {
        2
    } else if splits_at(chunk, 3) {
        3
    } else {
        0
    }
}

/// One read: the held bytes and the new ones form a chunk. A valid chunk is accepted whole; a
/// nonempty read whose chunk ends in an unfinished character after valid text holds that
/// character back; anything else is not UTF-8. An empty read marks the end of input.
pub open spec fn spec_feed(held: Seq<u8>, bytes: Seq<u8>) -> Option<Seq<u8>> {
    let chunk = held + bytes;
    if valid_utf8(chunk) {
        Some(Seq::empty())
    } else if bytes.len() > 0 && tail_len(chunk) > 0 {
        Some(chunk.skip(chunk.len() - tail_len(chunk)))
    } else {
        None
    }
}

/// Whether the first `len` bytes are UTF-8 (`std::str::from_utf8` succeeds on them).
#[verifier::external_body]
fn is_utf8(bytes: &[u8], len: usize) -> (r: bool)
    requires
        len <= bytes@.len(),
    ensures
        r == valid_utf8(bytes@.take(len as int)),
{
    std::str::from_utf8(&bytes[..len]).is_ok()
}

/// Valid text followed by valid text is valid.
proof fn lemma_valid_concat(a: Seq<u8>, b: Seq<u8>)
    requires
        valid_utf8(a),
        valid_utf8(b),
    ensures
        valid_utf8(a + b),
{
    decode_utf8_encode_utf8(a);
    decode_utf8_encode_utf8(b);
    lemma_encode_concat(decode_utf8(a), decode_utf8(b));
    encode_utf8_valid_utf8(decode_utf8(a) + decode_utf8(b));
}

/// Streaming validation state: the bytes accepted so far, which are UTF-8, and the unfinished
/// character held back.
pub struct Utf8Stream {
    held: Vec<u8>,
    accepted: Ghost<Seq<u8>>,
}

/// The end of input completes nothing: held bytes of an unfinished character are rejected
/// there.
pub proof fn law_unfinished_rejected_at_end(t: Seq<u8>)
    requires
        partial(t),
    ensures
        spec_feed(t, Seq::empty()) is None,
{
    reveal_with_fuel(valid_utf8, 1);
    assert(t + Seq::<u8>::empty() =~= t);
}

impl Utf8Stream {
    /// Every byte read so far: the accepted ones, then the held ones.
    pub closed spec fn consumed(&self) -> Seq<u8> {
        self.accepted@ + self.held@
    }

    /// The unfinished character held back.
    pub closed spec fn held(&self) -> Seq<u8> {
        self.held@
    }

    /// The accepted bytes are UTF-8, and the held bytes are empty or an unfinished character.
    pub closed spec fn wf(&self) -> bool {
        valid_utf8(self.accepted@) && (self.held@.len() == 0 || partial(self.held@))
    }

    /// Nothing read yet.
    pub fn new() -> (s: Utf8Stream)
        ensures
            s.wf(),
            s.consumed().len() == 0,
            s.held().len() == 0,
    {
        Utf8Stream { held: Vec::new(), accepted: Ghost(Seq::empty()) }
    }

    /// Check the bytes of one read (`bytes` empty at the end of input); false when the input
    /// is not UTF-8.
    pub fn feed(&mut self, bytes: &[u8]) -> (ok: bool)
        requires
            old(self).wf(),
        ensures
            ok == spec_feed(old(self).held(), bytes@) is Some,
            ok ==> final(self).wf() && final(self).held() == spec_feed(old(self).held(), bytes@)->Some_0
                && final(self).consumed() == old(self).consumed() + bytes@,
            final(self).held().len() <= 3,
            ok && bytes@.len() == 0 ==> final(self).held().len() == 0 && valid_utf8(final(self).consumed()),
    {
        let mut chunk: Vec<u8> = Vec::new();
        std::mem::swap(&mut chunk, &mut self.held);
        append_bytes(&mut chunk, bytes);
        let n = chunk.len();
        assert(chunk@.take(n as int) =~= chunk@);
        if is_utf8(chunk.as_slice(), n) {
            proof {
                lemma_valid_concat(self.accepted@, chunk@);
                assert(self.accepted@ + chunk@ =~= old(self).consumed() + bytes@);
            }
            self.accepted = Ghost(self.accepted@ + chunk@);
            return true;
        }
        if bytes.len() == 0 {
            return false;
        }
        let k = find_split(&chunk);
        if k == 0 {
            return false;
        }
        let split = n - k;
        let held = bytes_from(&chunk, split);
        proof {
            assert(splits_at(chunk@, k as int));
            assert(held@ =~= chunk@.skip(n - k));
            lemma_valid_concat(self.accepted@, chunk@.take(split as int));
            assert(self.accepted@ + chunk@.take(split as int) + held@ =~= old(self).consumed()
                + bytes@);
        }
        self.accepted = Ghost(self.accepted@ + chunk@.take(split as int));
        self.held = held;
        true
    }
}

/// Append `bytes` to `v`.
fn append_bytes(v: &mut Vec<u8>, bytes: &[u8])
    ensures
        final(v)@ == old(v)@ + bytes@,
{
    let mut i: usize = 0;
    while i < bytes.len()
        invariant
            v@ == old(v)@ + bytes@.take(i as int),
            i <= bytes@.len(),
        decreases bytes@.len() - i,
    {
        v.push(bytes[i]);
        i = i + 1;
        assert(v@ =~= old(v)@ + bytes@.take(i as int));
    }
    assert(bytes@.take(i as int) =~= bytes@);
}

/// Length of the unfinished character ending a chunk after valid text, or 0.
fn find_split(chunk: &Vec<u8>) -> (k: usize)
    ensures
        k as int == tail_len(chunk@),
{
    let n = chunk.len();
    let mut k: usize = 1;
    while k <= 3 && k <= n
        invariant
            1 <= k <= 4,
            chunk@.len() == n,
            forall|j: int| 1 <= j < k ==> !splits_at(chunk@, j),
        decreases 4 - k,
    {
        let split = n - k;
        let tail_ok = if k == 1 {
            0xc2 <= chunk[split] && chunk[split] <= 0xf4
        } else if k == 2 {
            0xe0 <= chunk[split] && chunk[split] <= 0xf4 && second_allowed(
                chunk[split],
                chunk[split + 1],
            )
        } else {
            0xf0 <= chunk[split] && chunk[split] <= 0xf4 && second_allowed(
                chunk[split],
                chunk[split + 1],
            ) && 0x80 <= chunk[split + 2] && chunk[split + 2] <= 0xbf
        };
        proof {
            let t = chunk@.skip(split as int);
            assert(t.len() == k);
            assert(t[0] == chunk@[split as int]);
            if k >= 2 {
                assert(t[1] == chunk@[split + 1]);
            }
            if k >= 3 {
                assert(t[2] == chunk@[split + 2]);
            }
            assert(tail_ok == partial(t));
        }
        if tail_ok && is_utf8(chunk.as_slice(), split) {
            assert(splits_at(chunk@, k as int));
            return k;
        }
        k = k + 1;
    }
    0
}

/// The bytes of `v` from position `from` on.
fn bytes_from(v: &Vec<u8>, from: usize) -> (r: Vec<u8>)
    requires
        from <= v@.len(),
    ensures
        r@ == v@.subrange(from as int, v@.len() as int),
{
    let mut r: Vec<u8> = Vec::new();
    let mut j: usize = from;
    while j < v.len()
        invariant
            from <= j <= v@.len(),
            r@ == v@.subrange(from as int, j as int),
        decreases v@.len() - j,
    {
        r.push(v[j]);
        j = j + 1;
        assert(r@ =~= v@.subrange(from as int, j as int));
    }
    r
}

/// Whether `b` may follow lead byte `lead`.
fn second_allowed(lead: u8, b: u8) -> (r: bool)
    ensures
        r == second_ok(lead, b),
{
    if lead == 0xe0 {
        0xa0 <= b && b <= 0xbf
    } else if lead == 0xed {
        0x80 <= b && b <= 0x9f
    } else if lead == 0xf0 {
        0x90 <= b && b <= 0xbf
    } else if lead == 0xf4 {
        0x80 <= b && b <= 0x8f
    } else {
        0x80 <= b && b <= 0xbf
    }
}

/// The first scalar of bytes stays the first scalar, decoded alike, when bytes follow them.
proof fn lemma_first_scalar_extend(p: Seq<u8>, x: Seq<u8>)
    requires
        valid_first_scalar(p),
    ensures
        valid_first_scalar(p + x),
        length_of_first_scalar(p + x) == length_of_first_scalar(p),
        pop_first_scalar(p + x) == pop_first_scalar(p) + x,
{
    let q = p + x;
    assert(q[0] == p[0]);
    if p.len() > 1 {
        assert(q[1] == p[1]);
    }
    if p.len() > 2 {
        assert(q[2] == p[2]);
    }
    if p.len() > 3 {
        assert(q[3] == p[3]);
    }
    assert(decode_first_codepoint(q) == decode_first_codepoint(p));
    assert(pop_first_scalar(q) =~= pop_first_scalar(p) + x);
}

/// Removing valid leading text from valid text leaves valid text.
proof fn lemma_valid_suffix(p: Seq<u8>, x: Seq<u8>)
    requires
        valid_utf8(p),
        valid_utf8(p + x),
    ensures
        valid_utf8(x),
    decreases p.len(),
{
    if p.len() == 0 {
        assert(p + x =~= x);
    } else {
        lemma_first_scalar_extend(p, x);
        assert(valid_utf8(pop_first_scalar(p + x)));
        assert(pop_first_scalar(p).len() < p.len());
        lemma_valid_suffix(pop_first_scalar(p), x);
    }
}

/// A proper nonempty prefix of a valid multi-byte character is an unfinished character.
proof fn lemma_scalar_prefix_partial(w: Seq<u8>, c: int)
    requires
        valid_first_scalar(w),
        0 < c < length_of_first_scalar(w),
    ensures
        partial(w.take(c)),
{
    let b0 = w[0];
    let t = w.take(c);
    assert(t[0] == b0);
    if c >= 2 {
        assert(t[1] == w[1]);
    }
    if c >= 3 {
        assert(t[2] == w[2]);
    }
    if length_of_first_scalar(w) == 2 {
        let b1 = w[1];
        assert(codepoint_width_2(b0, b1) >= 0x80);
        assert(0xc0 <= b0 <= 0xdf && 0x80 <= b1 <= 0xbf && ((((b0 & 0x1f) as u32) << 6) | ((b1
            & 0x3f) as u32)) >= 0x80 ==> b0 >= 0xc2) by (bit_vector);
    } else if length_of_first_scalar(w) == 3 {
        let b1 = w[1];
        let b2 = w[2];
        let cp = codepoint_width_3(b0, b1, b2);
        assert(0x800 <= cp);
        assert(!(0xD800 <= cp <= 0xDFFF));
        assert(0xe0 <= b0 <= 0xef && 0x80 <= b1 <= 0xbf && 0x80 <= b2 <= 0xbf && 0x800 <= ((((b0
            & 0x0f) as u32) << 12) | (((b1 & 0x3f) as u32) << 6) | ((b2 & 0x3f) as u32)) && !(
        0xD800 <= ((((b0 & 0x0f) as u32) << 12) | (((b1 & 0x3f) as u32) << 6) | ((b2
            & 0x3f) as u32)) <= 0xDFFF) ==> (b0 == 0xe0 ==> 0xa0 <= b1) && (b0 == 0xed ==> b1
            <= 0x9f)) by (bit_vector);
    } else {
        let b1 = w[1];
        let b2 = w[2];
        let b3 = w[3];
        let cp = codepoint_width_4(b0, b1, b2, b3);
        assert(0x10000 <= cp <= 0x10ffff);
        assert(0xf0 <= b0 <= 0xf7 && 0x80 <= b1 <= 0xbf && 0x80 <= b2 <= 0xbf && 0x80 <= b3
            <= 0xbf && 0x10000 <= ((((b0 & 0x07) as u32) << 18) | (((b1 & 0x3f) as u32) << 12)
            | (((b2 & 0x3f) as u32) << 6) | ((b3 & 0x3f) as u32)) && ((((b0 & 0x07) as u32)
            << 18) | (((b1 & 0x3f) as u32) << 12) | (((b2 & 0x3f) as u32) << 6) | ((b3
            & 0x3f) as u32)) <= 0x10ffff ==> b0 <= 0xf4 && (b0 == 0xf0 ==> 0x90 <= b1) && (b0
            == 0xf4 ==> b1 <= 0x8f)) by (bit_vector);
    }
}

/// Cutting valid text anywhere leaves valid text followed by at most three bytes of an
/// unfinished character; cutting at the end leaves nothing unfinished.
proof fn lemma_cut_valid(w: Seq<u8>, c: int) -> (b: int)
    requires
        valid_utf8(w),
        0 <= c <= w.len(),
    ensures
        0 <= b <= c,
        c - b <= 3,
        valid_utf8(w.take(b)),
        b == c || partial(w.subrange(b, c)),
        c == w.len() ==> b == c,
    decreases w.len(),
{
    if c == 0 {
        assert(w.take(0) =~= Seq::<u8>::empty());
        0
    } else {
        let l = length_of_first_scalar(w);
        let first = w.take(l);
        assert(valid_first_scalar(first) && length_of_first_scalar(first) == l) by {
            assert(first[0] == w[0]);
            if l > 1 {
                assert(first[1] == w[1]);
            }
            if l > 2 {
                assert(first[2] == w[2]);
            }
            if l > 3 {
                assert(first[3] == w[3]);
            }
            assert(decode_first_codepoint(first) == decode_first_codepoint(w));
        }
        assert(valid_utf8(first)) by {
            reveal_with_fuel(valid_utf8, 2);
            assert(pop_first_scalar(first) =~= Seq::<u8>::empty());
        }
        if c < l {
            lemma_scalar_prefix_partial(w, c);
            assert(w.subrange(0, c) =~= w.take(c));
            assert(w.take(0) =~= Seq::<u8>::empty());
            0
        } else {
            let rest = pop_first_scalar(w);
            assert(rest.len() < w.len());
            let b2 = lemma_cut_valid(rest, c - l);
            assert(w.take(l + b2) =~= first + rest.take(b2));
            lemma_valid_concat(first, rest.take(b2));
            assert(w.subrange(l + b2, c) =~= rest.subrange(b2, c - l));
            l + b2
        }
    }
}

/// A read never rejects input whose bytes so far, followed by what is still to come, are
/// UTF-8: every nonempty read, and the end of a valid input, is accepted.
pub proof fn law_valid_input_accepted(
    accepted: Seq<u8>,
    held: Seq<u8>,
    bytes: Seq<u8>,
    rest: Seq<u8>,
)
    requires
        valid_utf8(accepted),
        held.len() == 0 || partial(held),
        valid_utf8(accepted + held + bytes + rest),
        bytes.len() > 0 || rest.len() == 0,
    ensures
        spec_feed(held, bytes) is Some,
{
    let chunk = held + bytes;
    let w = chunk + rest;
    assert(accepted + held + bytes + rest =~= accepted + w);
    lemma_valid_suffix(accepted, w);
    let b = lemma_cut_valid(w, chunk.len() as int);
    assert(w.take(chunk.len() as int) =~= chunk);
    if b == chunk.len() {
        assert(w.take(b) =~= chunk);
    } else {
        let k = chunk.len() - b;
        assert(chunk.skip(chunk.len() - k) =~= w.subrange(b, chunk.len() as int));
        assert(chunk.take(chunk.len() - k) =~= w.take(b));
        assert(splits_at(chunk, k));
        if bytes.len() == 0 {
            assert(w =~= chunk);
        }
    }
}

} // verus!
