//! The layout of the compiled stream.
//!
//! Every node takes two 32-bit words. The high byte of the first word is the
//! node's type tag and its low 24 bits are the operand: a child count or a
//! registry handle. The second word is the offset of the node's children,
//! counted in words from the start of the stream, or zero for a leaf.
use vstd::prelude::*;

verus! {

/// The number of words that one node takes.
pub const NODE_SIZE: usize = 2;

/// The number of bits below the type tag.
pub const TAG_SHIFT: u32 = 24;

/// The bits of a word that hold the type tag.
pub const TAG_MASK: u32 = 0xFF00_0000;

/// The largest operand that the bits below the type tag can hold.
pub const OPERAND_MAX: u32 = 0x00FF_FFFF;

/// The type tag of a sequence node.
pub const SEQUENCE_ID: u8 = 1;

/// The type tag of a fallback node.
pub const FALLBACK_ID: u8 = 2;

/// The type tag of a parallel node.
pub const PARALLEL_ID: u8 = 3;

/// The type tag of a decorator node.
pub const DECORATOR_ID: u8 = 4;

/// The type tag of an executor node.
pub const EXECUTOR_ID: u8 = 5;

/// The word that holds `tag` in its high byte and `operand` below it.
pub open spec fn instruction_word(tag: u8, operand: u32) -> u32 {
    ((tag as u32) << TAG_SHIFT) | operand
}

/// The type tag that a word holds.
pub open spec fn word_tag(word: u32) -> u8 {
    (word >> TAG_SHIFT) as u8
}

/// The operand that a word holds.
pub open spec fn word_operand(word: u32) -> u32 {
    word & OPERAND_MAX
}

/// The offset word of a node whose own first word stands at `position`: the
/// position right after the node, cut to 32 bits.
pub open spec fn child_offset_word(position: int) -> u32 {
    ((position + NODE_SIZE) % 0x1_0000_0000) as u32
}

/// A word gives back the tag and the operand it was made of, and is their
/// sum once the tag is moved to the high byte.
pub proof fn lemma_word_fields(tag: u8, operand: u32)
    requires
        operand <= OPERAND_MAX,
    ensures
        word_tag(instruction_word(tag, operand)) == tag,
        word_operand(instruction_word(tag, operand)) == operand,
        instruction_word(tag, operand) == tag * 0x100_0000 + operand,
        instruction_word(tag, operand) & TAG_MASK == tag * 0x100_0000,
{
    assert(((((tag as u32) << 24u32) | operand) >> 24u32) as u8 == tag) by (bit_vector)
        requires
            operand <= 0x00FF_FFFFu32,
    ;
    assert((((tag as u32) << 24u32) | operand) & 0x00FF_FFFFu32 == operand) by (bit_vector)
        requires
            operand <= 0x00FF_FFFFu32,
    ;
    assert((((tag as u32) << 24u32) | operand) == tag * 0x100_0000 + operand) by (bit_vector)
        requires
            operand <= 0x00FF_FFFFu32,
    ;
    assert((((tag as u32) << 24u32) | operand) & 0xFF00_0000u32 == tag * 0x100_0000) by (bit_vector)
        requires
            operand <= 0x00FF_FFFFu32,
    ;
}

/// Every word is made of the tag and the operand that it holds.
pub proof fn lemma_word_rebuilds(word: u32)
    ensures
        instruction_word(word_tag(word), word_operand(word)) == word,
        word_operand(word) <= OPERAND_MAX,
{
    assert(((((word >> 24u32) as u8) as u32) << 24u32) | (word & 0x00FF_FFFFu32) == word)
        by (bit_vector);
    assert(word & 0x00FF_FFFFu32 <= 0x00FF_FFFFu32) by (bit_vector);
}

/// As long as the position right behind a node fits 32 bits, the offset
/// word is that position.
pub proof fn lemma_offset_behind_node(position: int)
    requires
        0 <= position,
        position + NODE_SIZE <= u32::MAX,
    ensures
        child_offset_word(position) == position + NODE_SIZE,
{
}

/// Words made of different tags or of different operands differ.
pub proof fn lemma_word_injective(tag: u8, operand: u32, other_tag: u8, other_operand: u32)
    requires
        operand <= OPERAND_MAX,
        other_operand <= OPERAND_MAX,
        instruction_word(tag, operand) == instruction_word(other_tag, other_operand),
    ensures
        tag == other_tag,
        operand == other_operand,
{
    lemma_word_fields(tag, operand);
    lemma_word_fields(other_tag, other_operand);
}

/// The word for `tag` and `operand`, if the operand fits below the tag.
pub fn encode(tag: u8, operand: usize) -> (word: Option<u32>)
    ensures
        operand <= OPERAND_MAX ==> word == Some(instruction_word(tag, operand as u32)),
        operand > OPERAND_MAX ==> word is None,
{
    if operand > OPERAND_MAX as usize {
        None
    } else {
        Some(((tag as u32) << TAG_SHIFT) | (operand as u32))
    }
}

/// The type tag that `word` holds.
pub fn tag_of(word: u32) -> (tag: u8)
    ensures
        tag == word_tag(word),
{
    assert(word >> 24u32 <= 0xFFu32) by (bit_vector);
    (word >> TAG_SHIFT) as u8
}

/// The operand that `word` holds.
pub fn operand_of(word: u32) -> (operand: u32)
    ensures
        operand == word_operand(word),
        operand <= OPERAND_MAX,
{
    assert(word & 0x00FF_FFFFu32 <= 0x00FF_FFFFu32) by (bit_vector);
    word & OPERAND_MAX
}

/// The offset word of a node whose own first word stands at `position`.
pub fn child_offset(position: usize) -> (offset: u32)
    ensures
        offset == child_offset_word(position as int),
        position + NODE_SIZE <= u32::MAX ==> offset == position + NODE_SIZE,
{
    let end: u128 = position as u128 + NODE_SIZE as u128;
    assert(end as u32 == end % 0x1_0000_0000) by (bit_vector);
    #[verifier::truncate]
    (end as u32)
}

} // verus!
