//! What MD5 and SHA-1 share: the padding rule, the fold of a compression
//! function over 64-byte blocks, and the block-at-a-time absorbing engine
//! whose padding decisions must agree with padding the whole message at once.
use vstd::prelude::*;
use vstd::arithmetic::div_mod::{lemma_add_mod_noop, lemma_small_mod};

verus! {

/// Where an engine stands in its padding.
#[derive(PartialEq, Eq, Structural, Clone, Copy, Debug)]
pub enum Phase {
    /// Only whole data blocks have been absorbed so far.
    AwaitingData,
    /// The `0x80` marker has been written, but the length field did not fit:
    /// one more, empty, block must be absorbed.
    AwaitingLength,
    /// The length field has been written and the digest is ready.
    Done,
}

/// The abstract state of an engine: its registers, the bit counter and the
/// padding phase.
pub struct EngineModel<R> {
    pub regs: R,
    pub bits: u64,
    pub phase: Phase,
}

/// `n` zero bytes.
pub open spec fn zeros(n: nat) -> Seq<u8> {
    Seq::new(n, |i: int| 0u8)
}

/// The eight bytes of `x`, least significant first.
pub open spec fn u64_le_bytes(x: u64) -> Seq<u8> {
    seq![
        (x & 0xff) as u8,
        ((x >> 8) & 0xff) as u8,
        ((x >> 16) & 0xff) as u8,
        ((x >> 24) & 0xff) as u8,
        ((x >> 32) & 0xff) as u8,
        ((x >> 40) & 0xff) as u8,
        ((x >> 48) & 0xff) as u8,
        ((x >> 56) & 0xff) as u8,
    ]
}

/// The eight bytes of `x`, most significant first.
pub open spec fn u64_be_bytes(x: u64) -> Seq<u8> {
    seq![
        ((x >> 56) & 0xff) as u8,
        ((x >> 48) & 0xff) as u8,
        ((x >> 40) & 0xff) as u8,
        ((x >> 32) & 0xff) as u8,
        ((x >> 24) & 0xff) as u8,
        ((x >> 16) & 0xff) as u8,
        ((x >> 8) & 0xff) as u8,
        (x & 0xff) as u8,
    ]
}

/// The 64-bit length field in the algorithm's byte order.
pub open spec fn length_field(bits: u64, big_endian: bool) -> Seq<u8> {
    if big_endian {
        u64_be_bytes(bits)
    } else {
        u64_le_bytes(bits)
    }
}

/// The length in bits of a message of `len` bytes, modulo 2^64.
pub open spec fn message_bits(len: nat) -> u64 {
    ((8 * len) % 0x1_0000_0000_0000_0000) as u64
}

/// How many zero bytes follow the `0x80` marker so that the length field
/// ends a block.
pub open spec fn zero_fill(len: nat) -> nat {
    let r = len % 64;
    if r < 56 {
        (55 - r) as nat
    } else {
        (119 - r) as nat
    }
}

/// The padding appended to a message of `len` bytes: the `0x80` marker,
/// zeros, then the bit length.
pub open spec fn padding(len: nat, big_endian: bool) -> Seq<u8> {
    seq![0x80u8] + zeros(zero_fill(len)) + length_field(message_bits(len), big_endian)
}

/// The whole message with its padding: a whole number of 64-byte blocks.
pub open spec fn padded(m: Seq<u8>, big_endian: bool) -> Seq<u8> {
    m + padding(m.len(), big_endian)
}

/// The block compressed for a terminal (shorter than 64 bytes) chunk: the
/// chunk, the marker if it is still owed, zeros, and the length field when
/// it fits.
pub open spec fn terminal_buffer(block: Seq<u8>, bits: u64, marker: bool, big_endian: bool) -> Seq<u8> {
    let head = if marker {
        block.push(0x80u8)
    } else {
        block
    };
    if block.len() < 56 {
        head + zeros((56 - head.len()) as nat) + length_field(bits, big_endian)
    } else {
        head + zeros((64 - head.len()) as nat)
    }
}

/// Applies a compression function to each whole 64-byte block of `data`,
/// in order.
pub open spec fn fold_blocks<R>(f: spec_fn(R, Seq<u8>) -> R, r: R, data: Seq<u8>) -> R
    decreases data.len(),
{
    if data.len() < 64 {
        r
    } else {
        fold_blocks(f, f(r, data.take(64)), data.skip(64))
    }
}

/// The engine that has absorbed nothing.
pub open spec fn initial_model<R>(init: R) -> EngineModel<R> {
    EngineModel { regs: init, bits: 0, phase: Phase::AwaitingData }
}

/// A chunk the engine may be given: at most 64 bytes, none once done, and
/// only the empty chunk while the length block is owed.
pub open spec fn admissible<R>(s: EngineModel<R>, block: Seq<u8>) -> bool {
    &&& block.len() <= 64
    &&& s.phase != Phase::Done
    &&& s.phase == Phase::AwaitingLength ==> block.len() == 0
}

/// One absorb call: count the chunk's bits; compress a full chunk as it is;
/// pad a shorter one, and finish when the length field fits.
pub open spec fn absorb_step<R>(
    f: spec_fn(R, Seq<u8>) -> R,
    s: EngineModel<R>,
    block: Seq<u8>,
    big_endian: bool,
) -> EngineModel<R> {
    let bits = s.bits.wrapping_add((8 * block.len()) as u64);
    if block.len() == 64 {
        EngineModel { regs: f(s.regs, block), bits, phase: s.phase }
    } else {
        EngineModel {
            regs: f(s.regs, terminal_buffer(block, bits, s.phase == Phase::AwaitingData, big_endian)),
            bits,
            phase: if block.len() < 56 {
                Phase::Done
            } else {
                Phase::AwaitingLength
            },
        }
    }
}

/// The concatenation of a sequence of chunks.
pub open spec fn concat_chunks(chunks: Seq<Seq<u8>>) -> Seq<u8>
    decreases chunks.len(),
{
    if chunks.len() == 0 {
        Seq::empty()
    } else {
        concat_chunks(chunks.drop_last()) + chunks.last()
    }
}

/// The engine after absorbing each chunk in turn.
pub open spec fn absorb_all<R>(
    f: spec_fn(R, Seq<u8>) -> R,
    s: EngineModel<R>,
    chunks: Seq<Seq<u8>>,
    big_endian: bool,
) -> EngineModel<R>
    decreases chunks.len(),
{
    if chunks.len() == 0 {
        s
    } else {
        absorb_step(f, absorb_all(f, s, chunks.drop_last(), big_endian), chunks.last(), big_endian)
    }
}

/// Every chunk of the sequence is admissible where it is absorbed.
pub open spec fn admissible_run<R>(
    f: spec_fn(R, Seq<u8>) -> R,
    s: EngineModel<R>,
    chunks: Seq<Seq<u8>>,
    big_endian: bool,
) -> bool
    decreases chunks.len(),
{
    chunks.len() == 0 || (admissible_run(f, s, chunks.drop_last(), big_endian) && admissible(
        absorb_all(f, s, chunks.drop_last(), big_endian),
        chunks.last(),
    ))
}

/// The engine state `s` is what absorbing the message `m` from the initial
/// registers `init` must give: its registers are the fold over the blocks of
/// `m` (or of its padding) that the phase says have been compressed.
pub open spec fn consistent<R>(
    f: spec_fn(R, Seq<u8>) -> R,
    init: R,
    s: EngineModel<R>,
    m: Seq<u8>,
    big_endian: bool,
) -> bool {
    &&& s.bits == message_bits(m.len())
    &&& match s.phase {
        Phase::AwaitingData => m.len() % 64 == 0 && s.regs == fold_blocks(f, init, m),
        Phase::AwaitingLength => m.len() % 64 >= 56 && s.regs == fold_blocks(
            f,
            init,
            padded(m, big_endian).take(m.len() - m.len() % 64 + 64),
        ),
        Phase::Done => s.regs == fold_blocks(f, init, padded(m, big_endian)),
    }
}

/// The padded message is a whole number of blocks.
pub proof fn lemma_padded_len(m: Seq<u8>, big_endian: bool)
    ensures
        padded(m, big_endian).len() == m.len() - m.len() % 64 + if m.len() % 64 < 56 {
            64int
        } else {
            128int
        },
        padded(m, big_endian).len() % 64 == 0,
{
    let len = m.len() as int;
    vstd::arithmetic::div_mod::lemma_fundamental_div_mod(len, 64);
    let q = len / 64 + if len % 64 < 56 {
        1int
    } else {
        2int
    };
    assert(padded(m, big_endian).len() == 64 * q);
    vstd::arithmetic::div_mod::lemma_mod_multiples_vanish(q, 0, 64);
}

/// A buffer built for a terminal chunk is always exactly one block.
pub proof fn lemma_terminal_buffer_len(block: Seq<u8>, bits: u64, marker: bool, big_endian: bool)
    requires
        block.len() < 64,
    ensures
        terminal_buffer(block, bits, marker, big_endian).len() == 64,
{
}

/// Folding over one block applies the compression function once.
pub proof fn lemma_fold_one_block<R>(f: spec_fn(R, Seq<u8>) -> R, r: R, block: Seq<u8>)
    requires
        block.len() == 64,
    ensures
        fold_blocks(f, r, block) == f(r, block),
{
    assert(block.take(64) =~= block);
    assert(fold_blocks(f, f(r, block), block.skip(64)) == f(r, block));
}

/// Folding over a concatenation whose first part is whole blocks folds the
/// second part from where the first one ended.
pub proof fn lemma_fold_blocks_append<R>(f: spec_fn(R, Seq<u8>) -> R, r: R, x: Seq<u8>, y: Seq<u8>)
    requires
        x.len() % 64 == 0,
    ensures
        fold_blocks(f, r, x + y) == fold_blocks(f, fold_blocks(f, r, x), y),
    decreases x.len(),
{
    if x.len() == 0 {
        assert(x + y =~= y);
    } else {
        let xy = x + y;
        assert(xy.take(64) =~= x.take(64));
        assert(xy.skip(64) =~= x.skip(64) + y);
        lemma_fold_blocks_append(f, f(r, x.take(64)), x.skip(64), y);
    }
}

/// Adding the bits of a chunk to the counter keeps it equal to the bit
/// length of the message, modulo 2^64.
pub proof fn lemma_bits_advance(len: nat, n: nat)
    requires
        n <= 64,
    ensures
        message_bits(len).wrapping_add((8 * n) as u64) == message_bits(len + n),
{
    let m: int = 0x1_0000_0000_0000_0000;
    let l: int = 8 * (len as int);
    let k: int = 8 * (n as int);
    lemma_add_mod_noop(l, k, m);
    lemma_small_mod(k as nat, m as nat);
    assert(8 * (len + n) == l + k);
    let a = l % m;
    assert(0 <= a < m);
    if a + k < m {
        lemma_small_mod((a + k) as nat, m as nat);
    } else {
        lemma_small_mod((a + k - m) as nat, m as nat);
        vstd::arithmetic::div_mod::lemma_mod_add_multiples_vanish(a + k - m, m);
    }
}

/// One admissible absorb call keeps the engine consistent with the message
/// extended by the chunk.
pub proof fn lemma_absorb_step_consistent<R>(
    f: spec_fn(R, Seq<u8>) -> R,
    init: R,
    s: EngineModel<R>,
    m: Seq<u8>,
    block: Seq<u8>,
    big_endian: bool,
)
    requires
        consistent(f, init, s, m, big_endian),
        admissible(s, block),
    ensures
        consistent(f, init, absorb_step(f, s, block, big_endian), m + block, big_endian),
{
    let t = absorb_step(f, s, block, big_endian);
    let mb = m + block;
    let len = m.len();
    let n = block.len();
    lemma_bits_advance(len, n);
    assert(t.bits == message_bits(mb.len()));
    if s.phase == Phase::AwaitingData {
        assert((len + n) % 64 == n % 64) by {
            vstd::arithmetic::div_mod::lemma_mod_multiples_vanish((len / 64) as int, n as int, 64);
        }
        if n == 64 {
            lemma_fold_one_block(f, s.regs, block);
            lemma_fold_blocks_append(f, init, m, block);
        } else {
            lemma_small_mod(n, 64);
            let buf = terminal_buffer(block, t.bits, true, big_endian);
            lemma_terminal_buffer_len(block, t.bits, true, big_endian);
            lemma_fold_one_block(f, s.regs, buf);
            lemma_fold_blocks_append(f, init, m, buf);
            if n < 56 {
                assert(padded(mb, big_endian) =~= m + buf);
            } else {
                assert(padded(mb, big_endian).take(mb.len() - mb.len() % 64 + 64) =~= m + buf);
            }
        }
    } else {
        assert(mb =~= m);
        let r = len % 64;
        let k = len - r + 64;
        let p = padded(m, big_endian);
        let buf = terminal_buffer(block, t.bits, false, big_endian);
        lemma_padded_len(m, big_endian);
        assert(p.skip(k) =~= buf);
        assert(p =~= p.take(k) + p.skip(k));
        assert(k % 64 == 0) by {
            vstd::arithmetic::div_mod::lemma_fundamental_div_mod(len as int, 64);
            vstd::arithmetic::div_mod::lemma_mod_multiples_vanish((len / 64 + 1) as int, 0, 64);
        }
        lemma_fold_blocks_append(f, init, p.take(k), p.skip(k));
        lemma_fold_one_block(f, s.regs, buf);
    }
}

/// Absorbing an admissible run of chunks keeps the engine consistent with
/// the message extended by their concatenation.
pub proof fn lemma_absorb_all_consistent<R>(
    f: spec_fn(R, Seq<u8>) -> R,
    init: R,
    s: EngineModel<R>,
    m: Seq<u8>,
    chunks: Seq<Seq<u8>>,
    big_endian: bool,
)
    requires
        consistent(f, init, s, m, big_endian),
        admissible_run(f, s, chunks, big_endian),
    ensures
        consistent(f, init, absorb_all(f, s, chunks, big_endian), m + concat_chunks(chunks), big_endian),
    decreases chunks.len(),
{
    if chunks.len() == 0 {
        assert(m + concat_chunks(chunks) =~= m);
    } else {
        let front = chunks.drop_last();
        lemma_absorb_all_consistent(f, init, s, m, front, big_endian);
        let m0 = m + concat_chunks(front);
        lemma_absorb_step_consistent(f, init, absorb_all(f, s, front, big_endian), m0, chunks.last(), big_endian);
        assert(m0 + chunks.last() =~= m + concat_chunks(chunks));
    }
}

/// The initial engine is consistent with the empty message.
pub proof fn lemma_initial_consistent<R>(f: spec_fn(R, Seq<u8>) -> R, init: R, big_endian: bool)
    ensures
        consistent(f, init, initial_model(init), Seq::empty(), big_endian),
{
    assert(message_bits(0) == 0);
}

/// A chunk of 56 to 63 bytes leaves no room for the length field: the engine
/// then waits for a second, all-padding block, and only that one finishes it.
pub proof fn lemma_long_tail_needs_two_blocks<R>(
    f: spec_fn(R, Seq<u8>) -> R,
    s: EngineModel<R>,
    tail: Seq<u8>,
    big_endian: bool,
)
    requires
        s.phase == Phase::AwaitingData,
        56 <= tail.len() < 64,
    ensures
        absorb_step(f, s, tail, big_endian).phase == Phase::AwaitingLength,
        admissible(absorb_step(f, s, tail, big_endian), Seq::empty()),
        absorb_step(f, absorb_step(f, s, tail, big_endian), Seq::empty(), big_endian).phase
            == Phase::Done,
{
}

/// `x` rotated left by `n` bits.
pub open spec fn rotl(x: u32, n: u32) -> u32 {
    (x << n) | (x >> ((32 - n) as u32))
}

/// Rotates a word left by `n` bits, `0 < n < 32`.
pub fn rotate_left(x: u32, n: u32) -> (r: u32)
    requires
        0 < n < 32,
    ensures
        r == rotl(x, n),
{
    (x << n) | (x >> (32 - n))
}

/// Builds the block compressed for a terminal chunk.
pub fn terminal_block(block: &[u8], bits: u64, marker: bool, big_endian: bool) -> (r: Vec<u8>)
    requires
        block@.len() < 64,
    ensures
        r@ == terminal_buffer(block@, bits, marker, big_endian),
        r@.len() == 64,
{
    let mut buf: Vec<u8> = Vec::new();
    let mut i: usize = 0;
    while i < block.len()
        invariant
            i <= block@.len(),
            buf@ == block@.take(i as int),
        decreases block@.len() - i,
    {
        buf.push(block[i]);
        i = i + 1;
    }
    assert(block@.take(i as int) =~= block@);
    if marker {
        buf.push(0x80);
    }
    let ghost head = buf@;
    let target: usize = if block.len() < 56 {
        56
    } else {
        64
    };
    while buf.len() < target
        invariant
            head.len() <= buf@.len() <= target,
            target == 56 || target == 64,
            buf@ == head + zeros((buf@.len() - head.len()) as nat),
        decreases target - buf@.len(),
    {
        buf.push(0);
        assert(buf@ =~= head + zeros((buf@.len() - head.len()) as nat));
    }
    if block.len() < 56 {
        if big_endian {
            buf.push(((bits >> 56) & 0xff) as u8);
            buf.push(((bits >> 48) & 0xff) as u8);
            buf.push(((bits >> 40) & 0xff) as u8);
            buf.push(((bits >> 32) & 0xff) as u8);
            buf.push(((bits >> 24) & 0xff) as u8);
            buf.push(((bits >> 16) & 0xff) as u8);
            buf.push(((bits >> 8) & 0xff) as u8);
            buf.push((bits & 0xff) as u8);
        } else {
            buf.push((bits & 0xff) as u8);
            buf.push(((bits >> 8) & 0xff) as u8);
            buf.push(((bits >> 16) & 0xff) as u8);
            buf.push(((bits >> 24) & 0xff) as u8);
            buf.push(((bits >> 32) & 0xff) as u8);
            buf.push(((bits >> 40) & 0xff) as u8);
            buf.push(((bits >> 48) & 0xff) as u8);
            buf.push(((bits >> 56) & 0xff) as u8);
        }
    }
    assert(buf@ =~= terminal_buffer(block@, bits, marker, big_endian));
    buf
}

} // verus!
