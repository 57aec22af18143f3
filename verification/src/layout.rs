//! The binary interchange format between host and device.
//!
//! A parameter record and an agent record are eight 32-bit words each, in field
//! order, zero-padded to 32 bytes. The output matrix is row-major with two
//! words per cell, the real lane first. Words lie in memory in the byte order
//! of the machine, which is the order in which the device reads them.

use vstd::prelude::*;
use vstd::endian::{endianness, Endian};
use crate::agent::Agent;
use crate::error::SirkError;
use crate::params::{Complex32, SymbolicParams};

verus! {

/// Words in one parameter record and in one agent record.
pub const RECORD_WORDS: usize = 8;

/// Bytes in one record: a multiple of 16.
pub const RECORD_BYTES: usize = 32;

/// Bytes in one cell of the output matrix.
pub const CELL_BYTES: usize = 8;

/// Word `j` of the record of `p`.
pub open spec fn param_record_word(p: SymbolicParams, j: int) -> u32 {
    if j == 0 {
        p.type_id
    } else if j == 1 {
        p.alpha
    } else if j == 2 {
        p.x0
    } else if j == 3 {
        p.k0
    } else if j == 4 {
        p.amp_real
    } else if j == 5 {
        p.amp_imag
    } else {
        0
    }
}

/// Word `j` of the record of `a`.
pub open spec fn agent_record_word(a: Agent, j: int) -> u32 {
    if j == 0 {
        a.kind
    } else if j == 1 {
        a.principal_port
    } else if j == 2 {
        a.aux_port
    } else if j == 3 {
        a.param_index
    } else if j == 4 {
        a.shift_val
    } else {
        0
    }
}

/// The records of `params`, one after the other.
pub open spec fn param_words(params: Seq<SymbolicParams>) -> Seq<u32> {
    Seq::new(params.len() * 8, |w: int| param_record_word(params[w / 8], w % 8))
}

/// The records of `agents`, one after the other.
pub open spec fn agent_words(agents: Seq<Agent>) -> Seq<u32> {
    Seq::new(agents.len() * 8, |w: int| agent_record_word(agents[w / 8], w % 8))
}

/// The lanes of a matrix: for each cell its real lane, then its imaginary one.
pub open spec fn matrix_lanes(cells: Seq<Complex32>) -> Seq<u32> {
    Seq::new(
        cells.len() * 2,
        |l: int|
            if l % 2 == 0 {
                cells[l / 2].re
            } else {
                cells[l / 2].im
            },
    )
}

/// Byte `b` of `w`, counted from the least significant.
pub open spec fn byte_of_word(w: u32, b: int) -> u8 {
    if b == 0 {
        (w % 256) as u8
    } else if b == 1 {
        (w / 256 % 256) as u8
    } else if b == 2 {
        (w / 65536 % 256) as u8
    } else {
        (w / 16777216 % 256) as u8
    }
}

/// The word whose bytes are `b0`, `b1`, `b2`, `b3`, least significant first.
pub open spec fn word_of_bytes(b0: u8, b1: u8, b2: u8, b3: u8) -> u32 {
    (b0 + 256 * b1 + 65536 * b2 + 16777216 * b3) as u32
}

/// The bytes of `words` as they lie in memory in byte order `order`.
pub open spec fn bytes_in(order: Endian, words: Seq<u32>) -> Seq<u8> {
    Seq::new(
        words.len() * 4,
        |i: int|
            match order {
                Endian::Little => byte_of_word(words[i / 4], i % 4),
                Endian::Big => byte_of_word(words[i / 4], 3 - i % 4),
            },
    )
}

/// The whole words that `bytes` hold in byte order `order`; up to three
/// trailing bytes that fill no word are left out.
pub open spec fn words_in(order: Endian, bytes: Seq<u8>) -> Seq<u32> {
    Seq::new(
        (bytes.len() / 4) as nat,
        |w: int|
            match order {
                Endian::Little => word_of_bytes(
                    bytes[4 * w],
                    bytes[4 * w + 1],
                    bytes[4 * w + 2],
                    bytes[4 * w + 3],
                ),
                Endian::Big => word_of_bytes(
                    bytes[4 * w + 3],
                    bytes[4 * w + 2],
                    bytes[4 * w + 1],
                    bytes[4 * w],
                ),
            },
    )
}

/// The bytes of `words` in the byte order of the machine.
pub open spec fn native_bytes(words: Seq<u32>) -> Seq<u8> {
    bytes_in(endianness(), words)
}

/// The words that `bytes` hold in the byte order of the machine.
pub open spec fn native_words(bytes: Seq<u8>) -> Seq<u32> {
    words_in(endianness(), bytes)
}

/// `bytes`, followed by as many zero bytes as fill its last word.
pub open spec fn zero_padded(bytes: Seq<u8>) -> Seq<u8> {
    bytes + Seq::new(((4 - bytes.len() % 4) % 4) as nat, |i: int| 0u8)
}

/// Calls `bytemuck::cast_slice` from 32-bit words to bytes and copies the
/// result. The cast reinterprets the words' memory, so the bytes are those of
/// the words in the machine's byte order, four per word; it cannot fail in this
/// direction, since bytes need no alignment and every word is four of them.
#[verifier::external_body]
fn words_to_bytes(words: &Vec<u32>) -> (bytes: Vec<u8>)
    ensures
        bytes@ == native_bytes(words@),
{
    bytemuck::cast_slice::<u32, u8>(words.as_slice()).to_vec()
}

/// Calls `bytemuck::pod_collect_to_vec` from bytes to 32-bit words. It
/// allocates just enough zeroed words to hold the bytes and copies the bytes
/// over their memory, so the result holds the bytes, zero-padded to whole
/// words, in the machine's byte order. It works for every length and needs no
/// alignment of its input.
#[verifier::external_body]
fn bytes_to_words(bytes: &Vec<u8>) -> (words: Vec<u32>)
    ensures
        words@ == native_words(zero_padded(bytes@)),
{
    bytemuck::pod_collect_to_vec::<u8, u32>(bytes.as_slice())
}

/// Splitting words into bytes and reading them back gives the same words, in
/// either byte order.
pub proof fn lemma_words_round_trip(order: Endian, words: Seq<u32>)
    ensures
        bytes_in(order, words).len() == 4 * words.len(),
        words_in(order, bytes_in(order, words)) == words,
{
    let bytes = bytes_in(order, words);
    let back = words_in(order, bytes);
    assert(back.len() == words.len());
    assert forall|w: int| 0 <= w < words.len() implies back[w] == words[w] by {
        let x = words[w];
        assert((4 * w) / 4 == w && (4 * w) % 4 == 0);
        assert((4 * w + 1) / 4 == w && (4 * w + 1) % 4 == 1);
        assert((4 * w + 2) / 4 == w && (4 * w + 2) % 4 == 2);
        assert((4 * w + 3) / 4 == w && (4 * w + 3) % 4 == 3);
        assert(word_of_bytes(
            byte_of_word(x, 0),
            byte_of_word(x, 1),
            byte_of_word(x, 2),
            byte_of_word(x, 3),
        ) == x);
    }
    assert(back =~= words);
}

/// A word put together from four bytes has those four bytes.
pub proof fn lemma_word_of_bytes(b0: u8, b1: u8, b2: u8, b3: u8)
    ensures
        b0 + 256 * b1 + 65536 * b2 + 16777216 * b3 <= u32::MAX,
        byte_of_word(word_of_bytes(b0, b1, b2, b3), 0) == b0,
        byte_of_word(word_of_bytes(b0, b1, b2, b3), 1) == b1,
        byte_of_word(word_of_bytes(b0, b1, b2, b3), 2) == b2,
        byte_of_word(word_of_bytes(b0, b1, b2, b3), 3) == b3,
{
}

/// Reading whole words out of bytes and splitting them again gives the same
/// bytes, in either byte order.
pub proof fn lemma_bytes_round_trip(order: Endian, bytes: Seq<u8>)
    requires
        bytes.len() % 4 == 0,
    ensures
        words_in(order, bytes).len() * 4 == bytes.len(),
        bytes_in(order, words_in(order, bytes)) == bytes,
{
    let words = words_in(order, bytes);
    let back = bytes_in(order, words);
    assert(back.len() == bytes.len());
    assert forall|i: int| 0 <= i < bytes.len() implies back[i] == bytes[i] by {
        let w = i / 4;
        let j = i % 4;
        assert(i == 4 * w + j && 0 <= j < 4 && 0 <= w < words.len());
        match order {
            Endian::Little => {
                lemma_word_of_bytes(bytes[4 * w], bytes[4 * w + 1], bytes[4 * w + 2], bytes[4 * w + 3]);
                assert(back[i] == byte_of_word(words[w], j));
            },
            Endian::Big => {
                lemma_word_of_bytes(bytes[4 * w + 3], bytes[4 * w + 2], bytes[4 * w + 1], bytes[4 * w]);
                assert(back[i] == byte_of_word(words[w], 3 - j));
            },
        }
    }
    assert(back =~= bytes);
}

/// The words of the records of `params`, in order.
pub fn param_record_words(params: &Vec<SymbolicParams>) -> (words: Vec<u32>)
    ensures
        words@ == param_words(params@),
        words.len() == RECORD_WORDS * params.len(),
{
    let mut words: Vec<u32> = Vec::new();
    let mut i: usize = 0;
    while i < params.len()
        invariant
            i <= params.len(),
            words.len() == 8 * i,
            forall|w: int| 0 <= w < 8 * i ==> words[w] == param_record_word(params[w / 8], w % 8),
        decreases params.len() - i,
    {
        let p = params[i];
        words.push(p.type_id);
        words.push(p.alpha);
        words.push(p.x0);
        words.push(p.k0);
        words.push(p.amp_real);
        words.push(p.amp_imag);
        words.push(0);
        words.push(0);
        i = i + 1;
    }
    assert(words@ =~= param_words(params@));
    words
}

/// The words of the records of `agents`, in order.
pub fn agent_record_words(agents: &Vec<Agent>) -> (words: Vec<u32>)
    ensures
        words@ == agent_words(agents@),
        words.len() == RECORD_WORDS * agents.len(),
{
    let mut words: Vec<u32> = Vec::new();
    let mut i: usize = 0;
    while i < agents.len()
        invariant
            i <= agents.len(),
            words.len() == 8 * i,
            forall|w: int| 0 <= w < 8 * i ==> words[w] == agent_record_word(agents[w / 8], w % 8),
        decreases agents.len() - i,
    {
        let a = agents[i];
        words.push(a.kind);
        words.push(a.principal_port);
        words.push(a.aux_port);
        words.push(a.param_index);
        words.push(a.shift_val);
        words.push(0);
        words.push(0);
        words.push(0);
        i = i + 1;
    }
    assert(words@ =~= agent_words(agents@));
    words
}

/// The parameter buffer for `params`: their records as bytes.
pub fn encode_params(params: &Vec<SymbolicParams>) -> (bytes: Vec<u8>)
    ensures
        bytes@ == native_bytes(param_words(params@)),
        bytes.len() == RECORD_BYTES * params.len(),
{
    let words = param_record_words(params);
    words_to_bytes(&words)
}

/// The agent buffer for `agents`: their records as bytes.
pub fn encode_agents(agents: &Vec<Agent>) -> (bytes: Vec<u8>)
    ensures
        bytes@ == native_bytes(agent_words(agents@)),
        bytes.len() == RECORD_BYTES * agents.len(),
{
    let words = agent_record_words(agents);
    words_to_bytes(&words)
}

/// Agents that one workgroup of the evaluator visits.
pub const WORKGROUP_SIZE: usize = 64;

/// Bytes in the output matrix of dimension `dim`.
pub open spec fn matrix_bytes(dim: int) -> int {
    CELL_BYTES * (dim * dim)
}

/// Workgroups that cover `n_agents` agents: the count divided by the workgroup
/// size, rounded up.
pub open spec fn workgroups_for(n_agents: int) -> int {
    (n_agents + 63) / 64
}

/// Size in bytes of the output buffer, and of the staging buffer that it is
/// copied to, for a matrix of dimension `dim`.
pub fn output_buffer_size(dim: usize) -> (size: u64)
    requires
        dim <= crate::graph::MAX_DIM,
    ensures
        size == matrix_bytes(dim as int),
{
    assert(dim * dim <= 65536 * 65536) by (nonlinear_arith)
        requires
            0 <= dim <= 65536,
    ;
    let d: u64 = dim as u64;
    8 * (d * d)
}

/// Number of workgroups to dispatch so that every one of `n_agents` agents is
/// visited.
pub fn workgroup_count(n_agents: usize) -> (count: u32)
    requires
        n_agents <= u32::MAX,
    ensures
        count == workgroups_for(n_agents as int),
{
    let full: usize = n_agents / WORKGROUP_SIZE;
    if n_agents % WORKGROUP_SIZE == 0 {
        full as u32
    } else {
        (full + 1) as u32
    }
}

/// Reads the output matrix of dimension `dim` out of the bytes that came back
/// from the device: two lanes per cell, row-major. Bytes of any other length
/// than the output buffer's are refused.
pub fn decode_matrix(bytes: &Vec<u8>, dim: usize) -> (result: Result<Vec<u32>, SirkError>)
    ensures
        match result {
            Ok(lanes) => {
                &&& bytes.len() == matrix_bytes(dim as int)
                &&& lanes@ == native_words(bytes@)
                &&& lanes.len() == 2 * (dim * dim)
            },
            Err(e) => e == SirkError::Device && bytes.len() != matrix_bytes(dim as int),
        },
{
    if dim > 0xFFFF_FFFF {
        assert(dim * dim >= 0x1_0000_0000 * 0x1_0000_0000) by (nonlinear_arith)
            requires
                dim >= 0x1_0000_0000,
        ;
        return Err(SirkError::Device);
    }
    assert(dim * dim <= 0xFFFF_FFFF * 0xFFFF_FFFF) by (nonlinear_arith)
        requires
            0 <= dim <= 0xFFFF_FFFF,
    ;
    let d: u128 = dim as u128;
    let need: u128 = 8 * (d * d);
    if bytes.len() as u128 != need {
        return Err(SirkError::Device);
    }
    let lanes = bytes_to_words(bytes);
    proof {
        assert(zero_padded(bytes@) =~= bytes@);
    }
    Ok(lanes)
}

} // verus!
