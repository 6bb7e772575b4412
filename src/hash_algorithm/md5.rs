//! MD5 (RFC 1321): four little-endian 32-bit registers and 64 rounds per
//! block.
use vstd::prelude::*;
use crate::hash_algorithm::engine::{
    absorb_all, absorb_step, admissible, admissible_run, concat_chunks, consistent, fold_blocks,
    initial_model, lemma_absorb_all_consistent, lemma_absorb_step_consistent,
    lemma_initial_consistent, lemma_long_tail_needs_two_blocks, lemma_padded_len, padded, rotate_left,
    rotl, terminal_block, EngineModel, Phase,
};
use crate::hex::{hex_of, lemma_hex_of_len, to_hex};

verus! {

/// The registers A, B, C, D.
pub type Md5Regs = (u32, u32, u32, u32);

/// The registers before the first block.
pub open spec fn md5_initial() -> Md5Regs {
    (0x67452301u32, 0xEFCDAB89u32, 0x98BADCFEu32, 0x10325476u32)
}

/// The 64 additive constants: the integer part of 2^32 times |sin(i + 1)|.
pub open spec fn md5_constants() -> Seq<u32> {
    seq![
        0xd76aa478u32, 0xe8c7b756, 0x242070db, 0xc1bdceee,
        0xf57c0faf, 0x4787c62a, 0xa8304613, 0xfd469501,
        0x698098d8, 0x8b44f7af, 0xffff5bb1, 0x895cd7be,
        0x6b901122, 0xfd987193, 0xa679438e, 0x49b40821,
        0xf61e2562, 0xc040b340, 0x265e5a51, 0xe9b6c7aa,
        0xd62f105d, 0x02441453, 0xd8a1e681, 0xe7d3fbc8,
        0x21e1cde6, 0xc33707d6, 0xf4d50d87, 0x455a14ed,
        0xa9e3e905, 0xfcefa3f8, 0x676f02d9, 0x8d2a4c8a,
        0xfffa3942, 0x8771f681, 0x6d9d6122, 0xfde5380c,
        0xa4beea44, 0x4bdecfa9, 0xf6bb4b60, 0xbebfbc70,
        0x289b7ec6, 0xeaa127fa, 0xd4ef3085, 0x04881d05,
        0xd9d4d039, 0xe6db99e5, 0x1fa27cf8, 0xc4ac5665,
        0xf4292244, 0x432aff97, 0xab9423a7, 0xfc93a039,
        0x655b59c3, 0x8f0ccc92, 0xffeff47d, 0x85845dd1,
        0x6fa87e4f, 0xfe2ce6e0, 0xa3014314, 0x4e0811a1,
        0xf7537e82, 0xbd3af235, 0x2ad7d2bb, 0xeb86d391,
    ]
}

/// The rotation of round `i`: four amounts per group of 16 rounds, used in
/// turn.
pub open spec fn md5_shift(i: int) -> u32 {
    let p = i % 4;
    if i < 16 {
        seq![7u32, 12, 17, 22][p]
    } else if i < 32 {
        seq![5u32, 9, 14, 20][p]
    } else if i < 48 {
        seq![4u32, 11, 16, 23][p]
    } else {
        seq![6u32, 10, 15, 21][p]
    }
}

/// Word `j` of a block, read least significant byte first.
pub open spec fn le_word(block: Seq<u8>, j: int) -> u32 {
    (block[4 * j] as u32) | ((block[4 * j + 1] as u32) << 8u32) | ((block[4 * j + 2] as u32)
        << 16u32) | ((block[4 * j + 3] as u32) << 24u32)
}

/// The nonlinear function of round `i`.
pub open spec fn md5_f(i: int, b: u32, c: u32, d: u32) -> u32 {
    if i < 16 {
        (b & c) | (!b & d)
    } else if i < 32 {
        (d & b) | (!d & c)
    } else if i < 48 {
        b ^ c ^ d
    } else {
        c ^ (b | !d)
    }
}

/// The index of the block word that round `i` reads.
pub open spec fn md5_g(i: int) -> int {
    if i < 16 {
        i
    } else if i < 32 {
        (5 * i + 1) % 16
    } else if i < 48 {
        (3 * i + 5) % 16
    } else {
        (7 * i) % 16
    }
}

/// Round `i` over a block.
pub open spec fn md5_round(r: Md5Regs, block: Seq<u8>, i: int) -> Md5Regs {
    let f = md5_f(i, r.1, r.2, r.3).wrapping_add(
        r.0.wrapping_add(md5_constants()[i].wrapping_add(le_word(block, md5_g(i)))),
    );
    (r.3, r.1.wrapping_add(rotl(f, md5_shift(i))), r.1, r.2)
}

/// The working registers after the first `n` rounds over a block.
pub open spec fn md5_rounds(r: Md5Regs, block: Seq<u8>, n: nat) -> Md5Regs
    decreases n,
{
    if n == 0 {
        r
    } else {
        md5_round(md5_rounds(r, block, (n - 1) as nat), block, n - 1)
    }
}

/// One block compressed into the registers: 64 rounds, then each working
/// register added to its register.
pub open spec fn md5_compress(r: Md5Regs, block: Seq<u8>) -> Md5Regs {
    let t = md5_rounds(r, block, 64);
    (r.0.wrapping_add(t.0), r.1.wrapping_add(t.1), r.2.wrapping_add(t.2), r.3.wrapping_add(t.3))
}

/// The compression function as a value, for the shared block engine.
pub open spec fn md5_compress_fn() -> spec_fn(Md5Regs, Seq<u8>) -> Md5Regs {
    |r: Md5Regs, b: Seq<u8>| md5_compress(r, b)
}

/// The four bytes of a register, least significant first.
pub open spec fn u32_le_bytes(x: u32) -> Seq<u8> {
    seq![(x & 0xff) as u8, ((x >> 8u32) & 0xff) as u8, ((x >> 16u32) & 0xff) as u8, ((x >> 24u32) & 0xff) as u8]
}

/// The 16 digest bytes of a register state.
pub open spec fn md5_regs_bytes(r: Md5Regs) -> Seq<u8> {
    u32_le_bytes(r.0) + u32_le_bytes(r.1) + u32_le_bytes(r.2) + u32_le_bytes(r.3)
}

/// The MD5 digest of a message.
pub open spec fn md5_digest(m: Seq<u8>) -> Seq<u8> {
    md5_regs_bytes(fold_blocks(md5_compress_fn(), md5_initial(), padded(m, false)))
}

/// The MD5 digest of a message as lowercase hexadecimal text.
pub open spec fn md5_hex(m: Seq<u8>) -> Seq<char> {
    hex_of(md5_digest(m))
}

/// The MD5 algorithm.
pub struct MD5 {}

/// The state of one MD5 computation.
pub struct MD5Context {
    a: u32,
    b: u32,
    c: u32,
    d: u32,
    total_data_size_bits: u64,
    phase: Phase,
    hash: Option<String>,
}

impl View for MD5Context {
    type V = EngineModel<Md5Regs>;

    closed spec fn view(&self) -> EngineModel<Md5Regs> {
        EngineModel {
            regs: (self.a, self.b, self.c, self.d),
            bits: self.total_data_size_bits,
            phase: self.phase,
        }
    }
}

impl MD5Context {
    /// The stored digest is present exactly when the engine is done, and is
    /// the rendering of the registers.
    pub closed spec fn wf(&self) -> bool {
        match self.hash {
            Some(h) => self.phase == Phase::Done && h@ == hex_of(md5_regs_bytes(self@.regs)),
            None => self.phase != Phase::Done,
        }
    }

    /// The finished digest as lowercase hexadecimal text, or `None` while
    /// more input is owed.
    pub fn digest(&self) -> (r: Option<String>)
        requires
            self.wf(),
        ensures
            r.is_some() == (self@.phase == Phase::Done),
            r.is_some() ==> r->0@ == hex_of(md5_regs_bytes(self@.regs)),
    {
        match &self.hash {
            Some(h) => Some(h.clone()),
            None => None,
        }
    }
}

impl Default for MD5Context {
    fn default() -> (r: Self)
        ensures
            r.wf(),
            r@ == initial_model(md5_initial()),
    {
        Self {
            a: 0x67452301u32,
            b: 0xEFCDAB89u32,
            c: 0x98BADCFEu32,
            d: 0x10325476u32,
            total_data_size_bits: 0,
            phase: Phase::AwaitingData,
            hash: None,
        }
    }
}

fn read_le_word(block: &[u8], j: usize) -> (r: u32)
    requires
        block@.len() == 64,
        j < 16,
    ensures
        r == le_word(block@, j as int),
{
    (block[4 * j] as u32) | ((block[4 * j + 1] as u32) << 8u32) | ((block[4 * j + 2] as u32)
        << 16u32) | ((block[4 * j + 3] as u32) << 24u32)
}

fn shift(i: usize) -> (r: u32)
    requires
        i < 64,
    ensures
        r == md5_shift(i as int),
        0 < r < 32,
{
    let p = i % 4;
    let row: [u32; 4] = if i < 16 {
        [7, 12, 17, 22]
    } else if i < 32 {
        [5, 9, 14, 20]
    } else if i < 48 {
        [4, 11, 16, 23]
    } else {
        [6, 10, 15, 21]
    };
    row[p]
}

fn compress_block(regs: Md5Regs, block: &[u8]) -> (r: Md5Regs)
    requires
        block@.len() == 64,
    ensures
        r == md5_compress(regs, block@),
{
    let constants: [u32; 64] = [
        0xd76aa478, 0xe8c7b756, 0x242070db, 0xc1bdceee,
        0xf57c0faf, 0x4787c62a, 0xa8304613, 0xfd469501,
        0x698098d8, 0x8b44f7af, 0xffff5bb1, 0x895cd7be,
        0x6b901122, 0xfd987193, 0xa679438e, 0x49b40821,
        0xf61e2562, 0xc040b340, 0x265e5a51, 0xe9b6c7aa,
        0xd62f105d, 0x02441453, 0xd8a1e681, 0xe7d3fbc8,
        0x21e1cde6, 0xc33707d6, 0xf4d50d87, 0x455a14ed,
        0xa9e3e905, 0xfcefa3f8, 0x676f02d9, 0x8d2a4c8a,
        0xfffa3942, 0x8771f681, 0x6d9d6122, 0xfde5380c,
        0xa4beea44, 0x4bdecfa9, 0xf6bb4b60, 0xbebfbc70,
        0x289b7ec6, 0xeaa127fa, 0xd4ef3085, 0x04881d05,
        0xd9d4d039, 0xe6db99e5, 0x1fa27cf8, 0xc4ac5665,
        0xf4292244, 0x432aff97, 0xab9423a7, 0xfc93a039,
        0x655b59c3, 0x8f0ccc92, 0xffeff47d, 0x85845dd1,
        0x6fa87e4f, 0xfe2ce6e0, 0xa3014314, 0x4e0811a1,
        0xf7537e82, 0xbd3af235, 0x2ad7d2bb, 0xeb86d391,
    ];
    assert(constants@ == md5_constants());
    let mut words: Vec<u32> = Vec::new();
    let mut j: usize = 0;
    while j < 16
        invariant
            j <= 16,
            block@.len() == 64,
            words@.len() == j,
            forall|k: int| 0 <= k < j ==> words@[k] == le_word(block@, k),
        decreases 16 - j,
    {
        words.push(read_le_word(block, j));
        j = j + 1;
    }
    let mut ta = regs.0;
    let mut tb = regs.1;
    let mut tc = regs.2;
    let mut td = regs.3;
    let mut i: usize = 0;
    while i < 64
        invariant
            i <= 64,
            words@.len() == 16,
            forall|k: int| 0 <= k < 16 ==> words@[k] == le_word(block@, k),
            constants@ == md5_constants(),
            (ta, tb, tc, td) == md5_rounds(regs, block@, i as nat),
        decreases 64 - i,
    {
        let f: u32;
        let g: usize;
        if i < 16 {
            f = (tb & tc) | (!tb & td);
            g = i;
        } else if i < 32 {
            f = (td & tb) | (!td & tc);
            g = (5 * i + 1) % 16;
        } else if i < 48 {
            f = tb ^ tc ^ td;
            g = (3 * i + 5) % 16;
        } else {
            f = tc ^ (tb | !td);
            g = (7 * i) % 16;
        }
        let sum = f.wrapping_add(ta.wrapping_add(constants[i].wrapping_add(words[g])));
        ta = td;
        td = tc;
        tc = tb;
        tb = tb.wrapping_add(rotate_left(sum, shift(i)));
        i = i + 1;
    }
    (
        regs.0.wrapping_add(ta),
        regs.1.wrapping_add(tb),
        regs.2.wrapping_add(tc),
        regs.3.wrapping_add(td),
    )
}

fn push_le_bytes(out: &mut Vec<u8>, x: u32)
    ensures
        final(out)@ == old(out)@ + u32_le_bytes(x),
{
    out.push((x & 0xff) as u8);
    out.push(((x >> 8u32) & 0xff) as u8);
    out.push(((x >> 16u32) & 0xff) as u8);
    out.push(((x >> 24u32) & 0xff) as u8);
    assert(final(out)@ =~= old(out)@ + u32_le_bytes(x));
}

fn render(regs: Md5Regs) -> (r: String)
    ensures
        r@ == hex_of(md5_regs_bytes(regs)),
{
    let mut bytes: Vec<u8> = Vec::new();
    push_le_bytes(&mut bytes, regs.0);
    push_le_bytes(&mut bytes, regs.1);
    push_le_bytes(&mut bytes, regs.2);
    push_le_bytes(&mut bytes, regs.3);
    assert(bytes@ =~= md5_regs_bytes(regs));
    to_hex(bytes.as_slice())
}

/// The state that absorbing a terminal chunk leads to once it is finished:
/// the chunk's own step, followed by the empty length block if that step
/// left the length field owed.
pub open spec fn md5_finished(s: EngineModel<Md5Regs>, chunk: Seq<u8>) -> EngineModel<Md5Regs> {
    let t = absorb_step(md5_compress_fn(), s, chunk, false);
    if t.phase == Phase::Done {
        t
    } else {
        absorb_step(md5_compress_fn(), t, Seq::empty(), false)
    }
}

impl MD5 {
    /// Absorbs one chunk of at most 64 bytes: a full chunk is compressed as
    /// it is; a shorter one is padded, and the digest is stored once the
    /// length field has been written.
    pub fn hash_block(context: MD5Context, original_data_block: &[u8]) -> (r: MD5Context)
        requires
            context.wf(),
            admissible(context@, original_data_block@),
        ensures
            r.wf(),
            r@ == absorb_step(md5_compress_fn(), context@, original_data_block@, false),
    {
        let len = original_data_block.len();
        let bits = context.total_data_size_bits.wrapping_add((8 * len) as u64);
        let regs = (context.a, context.b, context.c, context.d);
        let new_regs: Md5Regs;
        let phase: Phase;
        if len == 64 {
            new_regs = compress_block(regs, original_data_block);
            phase = context.phase;
        } else {
            let marker = context.phase == Phase::AwaitingData;
            let buf = terminal_block(original_data_block, bits, marker, false);
            new_regs = compress_block(regs, buf.as_slice());
            phase = if len < 56 {
                Phase::Done
            } else {
                Phase::AwaitingLength
            };
        }
        let hash = if phase == Phase::Done {
            Some(render(new_regs))
        } else {
            None
        };
        MD5Context {
            a: new_regs.0,
            b: new_regs.1,
            c: new_regs.2,
            d: new_regs.3,
            total_data_size_bits: bits,
            phase,
            hash,
        }
    }

    /// The MD5 digest of a message held in memory, as 32 lowercase
    /// hexadecimal digits.
    pub fn hash_slice(message: &[u8]) -> (r: String)
        ensures
            r@ == md5_hex(message@),
            r@.len() == 32,
    {
        let ghost f = md5_compress_fn();
        let ghost init = md5_initial();
        let mut context = MD5Context::default();
        proof {
            lemma_initial_consistent(f, init, false);
            assert(message@.take(0) =~= Seq::<u8>::empty());
        }
        let n = message.len();
        let mut i: usize = 0;
        while n - i >= 64
            invariant
                f == md5_compress_fn(),
                init == md5_initial(),
                n == message@.len(),
                i <= n,
                context.wf(),
                context@.phase == Phase::AwaitingData,
                consistent(f, init, context@, message@.take(i as int), false),
            decreases n - i,
        {
            let chunk = &message[i..i + 64];
            proof {
                lemma_absorb_step_consistent(f, init, context@, message@.take(i as int), chunk@, false);
                assert(message@.take(i as int) + chunk@ =~= message@.take(i + 64));
            }
            context = MD5::hash_block(context, chunk);
            i = i + 64;
        }
        let tail = &message[i..n];
        proof {
            lemma_absorb_step_consistent(f, init, context@, message@.take(i as int), tail@, false);
            assert(message@.take(i as int) + tail@ =~= message@);
        }
        context = MD5::hash_block(context, tail);
        if context.phase != Phase::Done {
            let empty: Vec<u8> = Vec::new();
            proof {
                lemma_absorb_step_consistent(f, init, context@, message@, empty@, false);
                assert(message@ + empty@ =~= message@);
            }
            context = MD5::hash_block(context, empty.as_slice());
        }
        proof {
            lemma_hex_of_len(md5_regs_bytes(context@.regs));
        }
        match context.hash {
            Some(h) => h,
            None => String::new(),
        }
    }

    /// The MD5 digest of a message held in a vector, as 32 lowercase
    /// hexadecimal digits. The vector is left as it was.
    pub fn hash_data(message: &mut Vec<u8>) -> (r: String)
        ensures
            final(message)@ == old(message)@,
            r@ == md5_hex(old(message)@),
            r@.len() == 32,
    {
        MD5::hash_slice(message.as_slice())
    }

    /// Absorbs one read of a stream. A read of 64 bytes means more may follow
    /// and yields no digest; a shorter one ends the stream, and the digest is
    /// returned after the length block is forced if it was still owed.
    pub fn hash_stream_chunk(context: MD5Context, chunk: &[u8]) -> (r: (MD5Context, Option<String>))
        requires
            context.wf(),
            context@.phase == Phase::AwaitingData,
            chunk@.len() <= 64,
        ensures
            r.0.wf(),
            chunk@.len() == 64 ==> r.1.is_none() && r.0@ == absorb_step(
                md5_compress_fn(),
                context@,
                chunk@,
                false,
            ),
            chunk@.len() < 64 ==> r.0@ == md5_finished(context@, chunk@) && r.0@.phase == Phase::Done
                && r.1.is_some() && r.1->0@ == hex_of(md5_regs_bytes(r.0@.regs)),
    {
        let len = chunk.len();
        let mut context = MD5::hash_block(context, chunk);
        if len == 64 {
            return (context, None);
        }
        if context.phase != Phase::Done {
            let empty: Vec<u8> = Vec::new();
            context = MD5::hash_block(context, empty.as_slice());
        }
        let digest = context.digest();
        (context, digest)
    }
}

impl crate::hash_algorithm::Hash for MD5 {
    fn hash_slice(message: &[u8]) -> (r: String)
        ensures
            r@ == md5_hex(message@),
    {
        MD5::hash_slice(message)
    }
}

/// Whatever chunks a message is cut into, absorbing them one by one from the
/// initial state, as long as each is admissible where it comes, leaves the
/// registers of the whole padded message once the engine is done: the digest
/// is that of the concatenation.
pub proof fn lemma_md5_chunked_digest(chunks: Seq<Seq<u8>>)
    requires
        admissible_run(md5_compress_fn(), initial_model(md5_initial()), chunks, false),
        absorb_all(md5_compress_fn(), initial_model(md5_initial()), chunks, false).phase
            == Phase::Done,
    ensures
        md5_regs_bytes(absorb_all(md5_compress_fn(), initial_model(md5_initial()), chunks, false).regs)
            == md5_digest(concat_chunks(chunks)),
{
    lemma_initial_consistent(md5_compress_fn(), md5_initial(), false);
    lemma_absorb_all_consistent(
        md5_compress_fn(),
        md5_initial(),
        initial_model(md5_initial()),
        Seq::empty(),
        chunks,
        false,
    );
    assert(Seq::<u8>::empty() + concat_chunks(chunks) =~= concat_chunks(chunks));
}

/// Two ways of cutting the same message into chunks give the same digest.
pub proof fn lemma_md5_chunking_invariance(c1: Seq<Seq<u8>>, c2: Seq<Seq<u8>>)
    requires
        admissible_run(md5_compress_fn(), initial_model(md5_initial()), c1, false),
        admissible_run(md5_compress_fn(), initial_model(md5_initial()), c2, false),
        absorb_all(md5_compress_fn(), initial_model(md5_initial()), c1, false).phase == Phase::Done,
        absorb_all(md5_compress_fn(), initial_model(md5_initial()), c2, false).phase == Phase::Done,
        concat_chunks(c1) == concat_chunks(c2),
    ensures
        md5_regs_bytes(absorb_all(md5_compress_fn(), initial_model(md5_initial()), c1, false).regs)
            == md5_regs_bytes(
            absorb_all(md5_compress_fn(), initial_model(md5_initial()), c2, false).regs,
        ),
{
    lemma_md5_chunked_digest(c1);
    lemma_md5_chunked_digest(c2);
}

/// Every MD5 digest is 16 bytes, rendered as 32 hexadecimal digits.
pub proof fn lemma_md5_digest_len(m: Seq<u8>)
    ensures
        md5_digest(m).len() == 16,
        md5_hex(m).len() == 32,
{
    lemma_hex_of_len(md5_digest(m));
}

/// A message whose length leaves 56 to 63 bytes in its last block needs two
/// padding blocks: the engine is not done after that last data chunk, and
/// one more empty chunk finishes it.
pub proof fn lemma_md5_boundary_two_blocks(m: Seq<u8>, s: EngineModel<Md5Regs>, tail: Seq<u8>)
    requires
        m.len() % 64 >= 56,
        s.phase == Phase::AwaitingData,
        tail.len() == m.len() % 64,
    ensures
        padded(m, false).len() == m.len() - m.len() % 64 + 128,
        absorb_step(md5_compress_fn(), s, tail, false).phase == Phase::AwaitingLength,
        absorb_step(md5_compress_fn(), absorb_step(md5_compress_fn(), s, tail, false), Seq::empty(), false).phase
            == Phase::Done,
{
    lemma_padded_len(m, false);
    lemma_long_tail_needs_two_blocks(md5_compress_fn(), s, tail, false);
}

} // verus!
