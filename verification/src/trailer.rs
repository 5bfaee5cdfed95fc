use vstd::prelude::*;

use crate::bytes::{be32, u32_to_be};

verus! {

/// Number of distinct sequence values: the sequence field is 26 bits wide.
pub open spec fn sequence_modulus() -> int {
    0x4000000
}

/// The 4-byte trailer appended to each tagged UDP payload.
///
/// Wire layout, most significant bit first of the big-endian 32-bit word:
/// `fragments:3 | sequence:26 | fragment:3`.
pub struct Payload {
    pub fragments: u8,
    pub sequence: u32,
    pub fragment: u8,
}

impl Payload {
    /// Field values that fit their bit widths.
    pub open spec fn wf(self) -> bool {
        self.fragments < 8 && self.sequence < sequence_modulus() && self.fragment < 8
    }

    pub open spec fn spec_fragments(self) -> u8 {
        self.fragments
    }

    pub open spec fn spec_sequence(self) -> u32 {
        self.sequence
    }

    pub open spec fn spec_fragment(self) -> u8 {
        self.fragment
    }

    /// The packed 32-bit word holding the three fields.
    pub open spec fn spec_word(self) -> u32 {
        (self.fragments as u32 * 0x20000000 + self.sequence as u32 * 8
            + self.fragment as u32) as u32
    }

    /// The four trailer bytes, in network order.
    pub open spec fn spec_bytes(self) -> Seq<u8> {
        seq![
            (self.spec_word() / 0x1000000) as u8,
            ((self.spec_word() / 0x10000) % 0x100) as u8,
            ((self.spec_word() / 0x100) % 0x100) as u8,
            (self.spec_word() % 0x100) as u8,
        ]
    }

    /// Byte length of the trailer on the wire.
    pub fn len() -> (r: usize)
        ensures
            r == 4,
    {
        4
    }

    /// A trailer with all fields zero.
    pub fn new() -> (r: Self)
        ensures
            r.wf(),
            r.spec_fragments() == 0,
            r.spec_sequence() == 0,
            r.spec_fragment() == 0,
    {
        Payload { fragments: 0, sequence: 0, fragment: 0 }
    }

    pub fn with_fragments(self, fragments: u8) -> (r: Self)
        requires
            fragments < 8,
        ensures
            r.spec_fragments() == fragments,
            r.spec_sequence() == self.spec_sequence(),
            r.spec_fragment() == self.spec_fragment(),
            self.wf() ==> r.wf(),
    {
        Payload { fragments, ..self }
    }

    /// Stores the 26 low bits of `sequence`: the counter wraps on the wire.
    pub fn with_sequence(self, sequence: u32) -> (r: Self)
        ensures
            r.spec_sequence() == sequence % 0x4000000,
            r.spec_fragments() == self.spec_fragments(),
            r.spec_fragment() == self.spec_fragment(),
            self.wf() ==> r.wf(),
    {
        Payload { sequence: sequence % 0x4000000, ..self }
    }

    pub fn with_fragment(self, fragment: u8) -> (r: Self)
        requires
            fragment < 8,
        ensures
            r.spec_fragment() == fragment,
            r.spec_fragments() == self.spec_fragments(),
            r.spec_sequence() == self.spec_sequence(),
            self.wf() ==> r.wf(),
    {
        Payload { fragment, ..self }
    }

    pub fn fragments(&self) -> (r: u8)
        ensures
            r == self.spec_fragments(),
    {
        self.fragments
    }

    pub fn sequence(&self) -> (r: u32)
        ensures
            r == self.spec_sequence(),
    {
        self.sequence
    }

    pub fn fragment(&self) -> (r: u8)
        ensures
            r == self.spec_fragment(),
    {
        self.fragment
    }

    /// Encodes the trailer into its four wire bytes.
    pub fn into_bytes(self) -> (r: [u8; 4])
        requires
            self.wf(),
        ensures
            r@ == self.spec_bytes(),
            be32(r[0], r[1], r[2], r[3]) == self.spec_word(),
    {
        let word: u32 = ((self.fragments as u32) << 29) | (self.sequence << 3)
            | (self.fragment as u32);
        proof {
            lemma_pack(self.fragments, self.sequence, self.fragment, word);
        }
        let (b0, b1, b2, b3) = u32_to_be(word);
        let r = [b0, b1, b2, b3];
        proof {
            lemma_be_bytes(word, b0, b1, b2, b3);
            assert(r@ =~= self.spec_bytes());
        }
        r
    }

    /// Decodes four wire bytes into a trailer; inverse of `into_bytes`.
    pub fn from_bytes(bytes: [u8; 4]) -> (r: Self)
        ensures
            r.wf(),
            r.spec_fragments() == be32(bytes[0], bytes[1], bytes[2], bytes[3]) >> 29,
            r.spec_sequence() == (be32(bytes[0], bytes[1], bytes[2], bytes[3]) >> 3) & 0x3ffffff,
            r.spec_fragment() == be32(bytes[0], bytes[1], bytes[2], bytes[3]) & 0x7,
    {
        let word: u32 = ((bytes[0] as u32) << 24) | ((bytes[1] as u32) << 16) | ((bytes[2]
            as u32) << 8) | (bytes[3] as u32);
        proof {
            let b0 = bytes[0];
            let b1 = bytes[1];
            let b2 = bytes[2];
            let b3 = bytes[3];
            assert(word == be32(b0, b1, b2, b3) && (word >> 29) < 8u32 && ((word >> 3)
                & 0x3ffffff) < 0x4000000u32 && (word & 0x7) < 8u32) by (bit_vector)
                requires
                    word == ((b0 as u32) << 24) | ((b1 as u32) << 16) | ((b2 as u32) << 8) | (b3
                        as u32),
                    be32(b0, b1, b2, b3) == (b0 as u32 * 0x1000000 + b1 as u32 * 0x10000 + b2
                        as u32 * 0x100 + b3 as u32) as u32,
            ;
        }
        Payload {
            fragments: (word >> 29) as u8,
            sequence: (word >> 3) & 0x3ffffff,
            fragment: (word & 0x7) as u8,
        }
    }
}

/// Packing the three fields by shifts equals the arithmetic form.
proof fn lemma_pack(fragments: u8, sequence: u32, fragment: u8, word: u32)
    requires
        fragments < 8,
        sequence < 0x4000000,
        fragment < 8,
        word == ((fragments as u32) << 29) | (sequence << 3) | (fragment as u32),
    ensures
        word == (fragments as u32 * 0x20000000 + sequence as u32 * 8 + fragment as u32) as u32,
        word >> 29 == fragments,
        (word >> 3) & 0x3ffffff == sequence,
        word & 0x7 == fragment,
{
    assert(word == (fragments as u32 * 0x20000000 + sequence as u32 * 8 + fragment as u32) as u32
        && word >> 29 == fragments && (word >> 3) & 0x3ffffff == sequence && word & 0x7
        == fragment) by (bit_vector)
        requires
            fragments < 8 && sequence < 0x4000000 && fragment < 8 && word == ((fragments
                as u32) << 29) | (sequence << 3) | (fragment as u32),
    ;
}

/// The network-order bytes of `word` match the division form used in specs.
proof fn lemma_be_bytes(word: u32, b0: u8, b1: u8, b2: u8, b3: u8)
    requires
        be32(b0, b1, b2, b3) == word,
    ensures
        b0 == (word / 0x1000000) as u8,
        b1 == ((word / 0x10000) % 0x100) as u8,
        b2 == ((word / 0x100) % 0x100) as u8,
        b3 == (word % 0x100) as u8,
{
    assert(b0 == (word / 0x1000000) as u8 && b1 == ((word / 0x10000) % 0x100) as u8 && b2 == ((word
        / 0x100) % 0x100) as u8 && b3 == (word % 0x100) as u8) by (bit_vector)
        requires
            (b0 as u32 * 0x1000000 + b1 as u32 * 0x10000 + b2 as u32 * 0x100 + b3 as u32) as u32
                == word,
    ;
}

/// Round trip of the trailer codec: encoding fragment metadata and decoding
/// it again recovers the fragment count, sequence and fragment index exactly,
/// for every fragment count in 1..=7, sequence below 2^26 and index below the
/// fragment count.
pub proof fn lemma_trailer_round_trip(p: Payload)
    requires
        p.wf(),
    ensures
        ({
            let w = p.spec_word();
            &&& w >> 29 == p.spec_fragments()
            &&& (w >> 3) & 0x3ffffff == p.spec_sequence()
            &&& w & 0x7 == p.spec_fragment()
        }),
{
    let fragments = p.spec_fragments();
    let sequence = p.spec_sequence();
    let fragment = p.spec_fragment();
    let w = p.spec_word();
    assert(w >> 29 == fragments && (w >> 3) & 0x3ffffff == sequence && w & 0x7 == fragment)
        by (bit_vector)
        requires
            fragments < 8 && sequence < 0x4000000 && fragment < 8 && w == (fragments as u32
                * 0x20000000 + sequence as u32 * 8 + fragment as u32) as u32,
    ;
}

} // verus!
