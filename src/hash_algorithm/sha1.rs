//! SHA-1 (FIPS 180-1): five big-endian 32-bit registers, an 80-word message
//! schedule and 80 rounds per block.
use vstd::prelude::*;
use crate::hash_algorithm::engine::{
    absorb_all, absorb_step, admissible, admissible_run, concat_chunks, consistent, fold_blocks,
    initial_model, lemma_absorb_all_consistent, lemma_absorb_step_consistent,
    lemma_initial_consistent, lemma_long_tail_needs_two_blocks, lemma_padded_len, padded, rotate_left,
    rotl, terminal_block, EngineModel, Phase,
};
use crate::hex::{hex_of, lemma_hex_of_len, to_hex};

verus! {

/// The registers A, B, C, D, E.
pub type Sha1Regs = (u32, u32, u32, u32, u32);

/// The registers before the first block.
pub open spec fn sha1_initial() -> Sha1Regs {
    (0x67452301u32, 0xEFCDAB89u32, 0x98BADCFEu32, 0x10325476u32, 0xC3D2E1F0u32)
}

/// Word `j` of a block, read most significant byte first.
pub open spec fn be_word(block: Seq<u8>, j: int) -> u32 {
    ((block[4 * j] as u32) << 24u32) | ((block[4 * j + 1] as u32) << 16u32) | ((block[4 * j + 2]
        as u32) << 8u32) | (block[4 * j + 3] as u32)
}

/// Word `i` of the 80-word message schedule of a block.
pub open spec fn sha1_schedule(block: Seq<u8>, i: nat) -> u32
    decreases i,
{
    if i < 16 {
        be_word(block, i as int)
    } else {
        rotl(
            sha1_schedule(block, (i - 3) as nat) ^ sha1_schedule(block, (i - 8) as nat)
                ^ sha1_schedule(block, (i - 14) as nat) ^ sha1_schedule(block, (i - 16) as nat),
            1,
        )
    }
}

/// The nonlinear function of round `i`.
pub open spec fn sha1_f(i: int, b: u32, c: u32, d: u32) -> u32 {
    if i < 20 {
        (b & c) | (!b & d)
    } else if i < 40 {
        b ^ c ^ d
    } else if i < 60 {
        (b & c) | (b & d) | (c & d)
    } else {
        b ^ c ^ d
    }
}

/// The additive constant of round `i`.
pub open spec fn sha1_k(i: int) -> u32 {
    if i < 20 {
        0x5A827999u32
    } else if i < 40 {
        0x6ED9EBA1u32
    } else if i < 60 {
        0x8F1BBCDCu32
    } else {
        0xCA62C1D6u32
    }
}

/// Round `i` with schedule word `w`.
pub open spec fn sha1_round(r: Sha1Regs, w: u32, i: int) -> Sha1Regs {
    let temp = rotl(r.0, 5).wrapping_add(sha1_f(i, r.1, r.2, r.3)).wrapping_add(r.4).wrapping_add(
        sha1_k(i),
    ).wrapping_add(w);
    (temp, r.0, rotl(r.1, 30), r.2, r.3)
}

/// The working registers after the first `n` rounds over a block.
pub open spec fn sha1_rounds(r: Sha1Regs, block: Seq<u8>, n: nat) -> Sha1Regs
    decreases n,
{
    if n == 0 {
        r
    } else {
        sha1_round(sha1_rounds(r, block, (n - 1) as nat), sha1_schedule(block, (n - 1) as nat), n - 1)
    }
}

/// One block compressed into the registers: 80 rounds, then each working
/// register added to its register.
pub open spec fn sha1_compress(r: Sha1Regs, block: Seq<u8>) -> Sha1Regs {
    let t = sha1_rounds(r, block, 80);
    (
        r.0.wrapping_add(t.0),
        r.1.wrapping_add(t.1),
        r.2.wrapping_add(t.2),
        r.3.wrapping_add(t.3),
        r.4.wrapping_add(t.4),
    )
}

/// The compression function as a value, for the shared block engine.
pub open spec fn sha1_compress_fn() -> spec_fn(Sha1Regs, Seq<u8>) -> Sha1Regs {
    |r: Sha1Regs, b: Seq<u8>| sha1_compress(r, b)
}

/// The four bytes of a register, most significant first.
pub open spec fn u32_be_bytes(x: u32) -> Seq<u8> {
    seq![((x >> 24u32) & 0xff) as u8, ((x >> 16u32) & 0xff) as u8, ((x >> 8u32) & 0xff) as u8, (x & 0xff) as u8]
}

/// The 20 digest bytes of a register state.
pub open spec fn sha1_regs_bytes(r: Sha1Regs) -> Seq<u8> {
    u32_be_bytes(r.0) + u32_be_bytes(r.1) + u32_be_bytes(r.2) + u32_be_bytes(r.3) + u32_be_bytes(r.4)
}

/// The SHA-1 digest of a message.
pub open spec fn sha1_digest(m: Seq<u8>) -> Seq<u8> {
    sha1_regs_bytes(fold_blocks(sha1_compress_fn(), sha1_initial(), padded(m, true)))
}

/// The SHA-1 digest of a message as lowercase hexadecimal text.
pub open spec fn sha1_hex(m: Seq<u8>) -> Seq<char> {
    hex_of(sha1_digest(m))
}

/// The SHA-1 algorithm.
pub struct SHA1 {}

/// The state of one SHA-1 computation.
pub struct SHA1Context {
    a: u32,
    b: u32,
    c: u32,
    d: u32,
    e: u32,
    total_data_size_bits: u64,
    phase: Phase,
    hash: Option<String>,
}

impl View for SHA1Context {
    type V = EngineModel<Sha1Regs>;

    closed spec fn view(&self) -> EngineModel<Sha1Regs> {
        EngineModel {
            regs: (self.a, self.b, self.c, self.d, self.e),
            bits: self.total_data_size_bits,
            phase: self.phase,
        }
    }
}

impl SHA1Context {
    /// The stored digest is present exactly when the engine is done, and is
    /// the rendering of the registers.
    pub closed spec fn wf(&self) -> bool {
        match self.hash {
            Some(h) => self.phase == Phase::Done && h@ == hex_of(sha1_regs_bytes(self@.regs)),
            None => self.phase != Phase::Done,
        }
    }

    /// The finished digest as lowercase hexadecimal text, or `None` while
    /// more input is owed.
    pub fn digest(&self) -> (r: Option<String>)
        requires
            self.wf(),
        ensures
            r.is_some() == (self@.phase == Phase::Done),
            r.is_some() ==> r->0@ == hex_of(sha1_regs_bytes(self@.regs)),
    {
        match &self.hash {
            Some(h) => Some(h.clone()),
            None => None,
        }
    }
}

impl Default for SHA1Context {
    fn default() -> (r: Self)
        ensures
            r.wf(),
            r@ == initial_model(sha1_initial()),
    {
        Self {
            a: 0x67452301u32,
            b: 0xEFCDAB89u32,
            c: 0x98BADCFEu32,
            d: 0x10325476u32,
            e: 0xC3D2E1F0u32,
            total_data_size_bits: 0,
            phase: Phase::AwaitingData,
            hash: None,
        }
    }
}

fn read_be_word(block: &[u8], j: usize) -> (r: u32)
    requires
        block@.len() == 64,
        j < 16,
    ensures
        r == be_word(block@, j as int),
{
    ((block[4 * j] as u32) << 24u32) | ((block[4 * j + 1] as u32) << 16u32) | ((block[4 * j + 2]
        as u32) << 8u32) | (block[4 * j + 3] as u32)
}

fn compress_block(regs: Sha1Regs, block: &[u8]) -> (r: Sha1Regs)
    requires
        block@.len() == 64,
    ensures
        r == sha1_compress(regs, block@),
{
    let mut words: Vec<u32> = Vec::new();
    let mut i: usize = 0;
    while i < 80
        invariant
            i <= 80,
            block@.len() == 64,
            words@.len() == i,
            forall|j: int| 0 <= j < i ==> words@[j] == sha1_schedule(block@, j as nat),
        decreases 80 - i,
    {
        let w = if i < 16 {
            read_be_word(block, i)
        } else {
            rotate_left(words[i - 3] ^ words[i - 8] ^ words[i - 14] ^ words[i - 16], 1)
        };
        words.push(w);
        i = i + 1;
    }
    let mut ta = regs.0;
    let mut tb = regs.1;
    let mut tc = regs.2;
    let mut td = regs.3;
    let mut te = regs.4;
    let mut i: usize = 0;
    while i < 80
        invariant
            i <= 80,
            words@.len() == 80,
            forall|j: int| 0 <= j < 80 ==> words@[j] == sha1_schedule(block@, j as nat),
            (ta, tb, tc, td, te) == sha1_rounds(regs, block@, i as nat),
        decreases 80 - i,
    {
        let f: u32;
        let k: u32;
        if i < 20 {
            f = (tb & tc) | (!tb & td);
            k = 0x5A827999u32;
        } else if i < 40 {
            f = tb ^ tc ^ td;
            k = 0x6ED9EBA1u32;
        } else if i < 60 {
            f = (tb & tc) | (tb & td) | (tc & td);
            k = 0x8F1BBCDCu32;
        } else {
            f = tb ^ tc ^ td;
            k = 0xCA62C1D6u32;
        }
        let temp = rotate_left(ta, 5).wrapping_add(f).wrapping_add(te).wrapping_add(k).wrapping_add(
            words[i],
        );
        te = td;
        td = tc;
        tc = rotate_left(tb, 30);
        tb = ta;
        ta = temp;
        i = i + 1;
    }
    (
        regs.0.wrapping_add(ta),
        regs.1.wrapping_add(tb),
        regs.2.wrapping_add(tc),
        regs.3.wrapping_add(td),
        regs.4.wrapping_add(te),
    )
}

fn push_be_bytes(out: &mut Vec<u8>, x: u32)
    ensures
        final(out)@ == old(out)@ + u32_be_bytes(x),
{
    out.push(((x >> 24u32) & 0xff) as u8);
    out.push(((x >> 16u32) & 0xff) as u8);
    out.push(((x >> 8u32) & 0xff) as u8);
    out.push((x & 0xff) as u8);
    assert(final(out)@ =~= old(out)@ + u32_be_bytes(x));
}

fn render(regs: Sha1Regs) -> (r: String)
    ensures
        r@ == hex_of(sha1_regs_bytes(regs)),
{
    let mut bytes: Vec<u8> = Vec::new();
    push_be_bytes(&mut bytes, regs.0);
    push_be_bytes(&mut bytes, regs.1);
    push_be_bytes(&mut bytes, regs.2);
    push_be_bytes(&mut bytes, regs.3);
    push_be_bytes(&mut bytes, regs.4);
    assert(bytes@ =~= sha1_regs_bytes(regs));
    to_hex(bytes.as_slice())
}

/// The state that absorbing a terminal chunk leads to once it is finished:
/// the chunk's own step, followed by the empty length block if that step
/// left the length field owed.
pub open spec fn sha1_finished(s: EngineModel<Sha1Regs>, chunk: Seq<u8>) -> EngineModel<Sha1Regs> {
    let t = absorb_step(sha1_compress_fn(), s, chunk, true);
    if t.phase == Phase::Done {
        t
    } else {
        absorb_step(sha1_compress_fn(), t, Seq::empty(), true)
    }
}

impl SHA1 {
    /// Absorbs one chunk of at most 64 bytes: a full chunk is compressed as
    /// it is; a shorter one is padded, and the digest is stored once the
    /// length field has been written.
    pub fn hash_block(context: SHA1Context, original_data_block: &[u8]) -> (r: SHA1Context)
        requires
            context.wf(),
            admissible(context@, original_data_block@),
        ensures
            r.wf(),
            r@ == absorb_step(sha1_compress_fn(), context@, original_data_block@, true),
    {
        let len = original_data_block.len();
        let bits = context.total_data_size_bits.wrapping_add((8 * len) as u64);
        let regs = (context.a, context.b, context.c, context.d, context.e);
        let new_regs: Sha1Regs;
        let phase: Phase;
        if len == 64 {
            new_regs = compress_block(regs, original_data_block);
            phase = context.phase;
        } else {
            let marker = context.phase == Phase::AwaitingData;
            let buf = terminal_block(original_data_block, bits, marker, true);
            new_regs = compress_block(regs, buf.as_slice());
            phase = if len < 56 {
                Phase::Done
            } else {
                Phase::AwaitingLength
            };
        }
        let hash = if phase == Phase::Done {
            Some(render(new_regs))
        } else {
            None
        };
        SHA1Context {
            a: new_regs.0,
            b: new_regs.1,
            c: new_regs.2,
            d: new_regs.3,
            e: new_regs.4,
            total_data_size_bits: bits,
            phase,
            hash,
        }
    }

    /// The SHA-1 digest of a message held in memory, as 40 lowercase
    /// hexadecimal digits.
    pub fn hash_slice(message: &[u8]) -> (r: String)
        ensures
            r@ == sha1_hex(message@),
            r@.len() == 40,
    {
        let ghost f = sha1_compress_fn();
        let ghost init = sha1_initial();
        let mut context = SHA1Context::default();
        proof {
            lemma_initial_consistent(f, init, true);
            assert(message@.take(0) =~= Seq::<u8>::empty());
        }
        let n = message.len();
        let mut i: usize = 0;
        while n - i >= 64
            invariant
                f == sha1_compress_fn(),
                init == sha1_initial(),
                n == message@.len(),
                i <= n,
                context.wf(),
                context@.phase == Phase::AwaitingData,
                consistent(f, init, context@, message@.take(i as int), true),
            decreases n - i,
        {
            let chunk = &message[i..i + 64];
            proof {
                lemma_absorb_step_consistent(f, init, context@, message@.take(i as int), chunk@, true);
                assert(message@.take(i as int) + chunk@ =~= message@.take(i + 64));
            }
            context = SHA1::hash_block(context, chunk);
            i = i + 64;
        }
        let tail = &message[i..n];
        proof {
            lemma_absorb_step_consistent(f, init, context@, message@.take(i as int), tail@, true);
            assert(message@.take(i as int) + tail@ =~= message@);
        }
        context = SHA1::hash_block(context, tail);
        if context.phase != Phase::Done {
            let empty: Vec<u8> = Vec::new();
            proof {
                lemma_absorb_step_consistent(f, init, context@, message@, empty@, true);
                assert(message@ + empty@ =~= message@);
            }
            context = SHA1::hash_block(context, empty.as_slice());
        }
        proof {
            lemma_hex_of_len(sha1_regs_bytes(context@.regs));
        }
        match context.hash {
            Some(h) => h,
            None => String::new(),
        }
    }

    /// Absorbs one read of a stream. A read of 64 bytes means more may follow
    /// and yields no digest; a shorter one ends the stream, and the digest is
    /// returned after the length block is forced if it was still owed.
    pub fn hash_stream_chunk(context: SHA1Context, chunk: &[u8]) -> (r: (SHA1Context, Option<String>))
        requires
            context.wf(),
            context@.phase == Phase::AwaitingData,
            chunk@.len() <= 64,
        ensures
            r.0.wf(),
            chunk@.len() == 64 ==> r.1.is_none() && r.0@ == absorb_step(
                sha1_compress_fn(),
                context@,
                chunk@,
                true,
            ),
            chunk@.len() < 64 ==> r.0@ == sha1_finished(context@, chunk@) && r.0@.phase == Phase::Done
                && r.1.is_some() && r.1->0@ == hex_of(sha1_regs_bytes(r.0@.regs)),
    {
        let len = chunk.len();
        let mut context = SHA1::hash_block(context, chunk);
        if len == 64 {
            return (context, None);
        }
        if context.phase != Phase::Done {
            let empty: Vec<u8> = Vec::new();
            context = SHA1::hash_block(context, empty.as_slice());
        }
        let digest = context.digest();
        (context, digest)
    }
}

impl crate::hash_algorithm::Hash for SHA1 {
    fn hash_slice(message: &[u8]) -> (r: String)
        ensures
            r@ == sha1_hex(message@),
    {
        SHA1::hash_slice(message)
    }
}

/// Whatever chunks a message is cut into, absorbing them one by one from the
/// initial state, as long as each is admissible where it comes, leaves the
/// registers of the whole padded message once the engine is done: the digest
/// is that of the concatenation.
pub proof fn lemma_sha1_chunked_digest(chunks: Seq<Seq<u8>>)
    requires
        admissible_run(sha1_compress_fn(), initial_model(sha1_initial()), chunks, true),
        absorb_all(sha1_compress_fn(), initial_model(sha1_initial()), chunks, true).phase
            == Phase::Done,
    ensures
        sha1_regs_bytes(absorb_all(sha1_compress_fn(), initial_model(sha1_initial()), chunks, true).regs)
            == sha1_digest(concat_chunks(chunks)),
{
    lemma_initial_consistent(sha1_compress_fn(), sha1_initial(), true);
    lemma_absorb_all_consistent(
        sha1_compress_fn(),
        sha1_initial(),
        initial_model(sha1_initial()),
        Seq::empty(),
        chunks,
        true,
    );
    assert(Seq::<u8>::empty() + concat_chunks(chunks) =~= concat_chunks(chunks));
}

/// Two ways of cutting the same message into chunks give the same digest.
pub proof fn lemma_sha1_chunking_invariance(c1: Seq<Seq<u8>>, c2: Seq<Seq<u8>>)
    requires
        admissible_run(sha1_compress_fn(), initial_model(sha1_initial()), c1, true),
        admissible_run(sha1_compress_fn(), initial_model(sha1_initial()), c2, true),
        absorb_all(sha1_compress_fn(), initial_model(sha1_initial()), c1, true).phase == Phase::Done,
        absorb_all(sha1_compress_fn(), initial_model(sha1_initial()), c2, true).phase == Phase::Done,
        concat_chunks(c1) == concat_chunks(c2),
    ensures
        sha1_regs_bytes(absorb_all(sha1_compress_fn(), initial_model(sha1_initial()), c1, true).regs)
            == sha1_regs_bytes(
            absorb_all(sha1_compress_fn(), initial_model(sha1_initial()), c2, true).regs,
        ),
{
    lemma_sha1_chunked_digest(c1);
    lemma_sha1_chunked_digest(c2);
}

/// Every SHA-1 digest is 20 bytes, rendered as 40 hexadecimal digits.
pub proof fn lemma_sha1_digest_len(m: Seq<u8>)
    ensures
        sha1_digest(m).len() == 20,
        sha1_hex(m).len() == 40,
{
    lemma_hex_of_len(sha1_digest(m));
}

/// A message whose length leaves 56 to 63 bytes in its last block needs two
/// padding blocks: the engine is not done after that last data chunk, and
/// one more empty chunk finishes it.
pub proof fn lemma_sha1_boundary_two_blocks(m: Seq<u8>, s: EngineModel<Sha1Regs>, tail: Seq<u8>)
    requires
        m.len() % 64 >= 56,
        s.phase == Phase::AwaitingData,
        tail.len() == m.len() % 64,
    ensures
        padded(m, true).len() == m.len() - m.len() % 64 + 128,
        absorb_step(sha1_compress_fn(), s, tail, true).phase == Phase::AwaitingLength,
        absorb_step(sha1_compress_fn(), absorb_step(sha1_compress_fn(), s, tail, true), Seq::empty(), true).phase
            == Phase::Done,
{
    lemma_padded_len(m, true);
    lemma_long_tail_needs_two_blocks(sha1_compress_fn(), s, tail, true);
}

} // verus!
