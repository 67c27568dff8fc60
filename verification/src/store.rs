//! The save file format used to export and import a client session.
//!
//! A save file is a sequence of 32 bit words. It starts with a header of two
//! words: the magic number and the total number of words in the file. Values
//! follow one after another:
//! * a `u32` is one word;
//! * a raw plain value is the words of its representation;
//! * a slice is its item count followed by the words of its items;
//! * a bool slice is its length followed by one word per item (1 or 0);
//! * a string is its byte length, its padded byte length and its utf8 bytes
//!   packed four by four, padded with zeros to a multiple of four bytes
//!   (always at least one byte of padding).
//!
//! The words are stored in little endian byte order.

use vstd::prelude::*;
use vstd::utf8::{valid_utf8, decode_utf8, encode_utf8};
use vstd::string::StringSliceAdditionalSpecFns;

verus! {

broadcast use vstd::utf8::encode_utf8_valid_utf8, vstd::utf8::encode_utf8_decode_utf8;

/// Magic number at the start of every save file.
pub const MAGIC: u32 = 0x6FAA7601;

/// Size in bytes of a word of the save file.
pub const ALIGN: usize = 4;

/// Number of words in the save file header.
pub const HEADER_WORDS: usize = 2;

/// Text returned by `read_str` when the stored bytes are not valid utf8.
pub open spec fn utf8_error_text() -> Seq<char> {
    seq!['U', 'T', 'F', '8', ' ', 'D', 'E', 'C', 'O', 'D', 'I', 'N', 'G', ' ', 'E', 'R', 'R', 'O', 'R']
}

// ---------------------------------------------------------------------------
// Byte / word model
// ---------------------------------------------------------------------------

/// The little endian word made of four bytes.
pub open spec fn word_of_bytes(b0: u8, b1: u8, b2: u8, b3: u8) -> u32 {
    (b0 as u32) | ((b1 as u32) << 8u32) | ((b2 as u32) << 16u32) | ((b3 as u32) << 24u32)
}

/// Byte `j` (0 to 3) of a little endian word.
pub open spec fn byte_of_word(w: u32, j: int) -> u8 {
    if j == 0 {
        (w & 0xffu32) as u8
    } else if j == 1 {
        ((w >> 8u32) & 0xffu32) as u8
    } else if j == 2 {
        ((w >> 16u32) & 0xffu32) as u8
    } else {
        ((w >> 24u32) & 0xffu32) as u8
    }
}

/// The words packed from a byte sequence, four bytes per word; trailing bytes
/// that do not fill a word are dropped.
pub open spec fn pack_words(bytes: Seq<u8>) -> Seq<u32> {
    Seq::new(
        bytes.len() / 4,
        |i: int| word_of_bytes(bytes[4 * i], bytes[4 * i + 1], bytes[4 * i + 2], bytes[4 * i + 3]),
    )
}

/// The bytes of a word sequence, four per word.
pub open spec fn unpack_words(words: Seq<u32>) -> Seq<u8> {
    Seq::new(words.len() * 4, |i: int| byte_of_word(words[i / 4], i % 4))
}

/// Number of bytes a string of `len` bytes takes once padded.
pub open spec fn padded_len(len: int) -> int {
    len + (4 - len % 4)
}

/// `bytes` followed by zeros up to its padded length.
pub open spec fn pad_bytes(bytes: Seq<u8>) -> Seq<u8> {
    bytes + Seq::new((padded_len(bytes.len() as int) - bytes.len()) as nat, |i: int| 0u8)
}

// ---------------------------------------------------------------------------
// Encodings
// ---------------------------------------------------------------------------

/// The words that encode a string whose utf8 bytes are `bytes`.
pub open spec fn encode_str(bytes: Seq<u8>) -> Seq<u32> {
    seq![bytes.len() as u32, padded_len(bytes.len() as int) as u32] + pack_words(pad_bytes(bytes))
}

/// The words that encode a slice of `words.len() / item_words` items.
pub open spec fn encode_slice(words: Seq<u32>, item_words: int) -> Seq<u32> {
    seq![(words.len() as int / item_words) as u32] + words
}

/// The word that stores a bool.
pub open spec fn bool_word(b: bool) -> u32 {
    if b { 1 } else { 0 }
}

/// The words that encode a bool slice.
pub open spec fn encode_bools(values: Seq<bool>) -> Seq<u32> {
    seq![values.len() as u32] + values.map_values(|b: bool| bool_word(b))
}

/// The bytes of a finished save file whose words are `words`: the size word
/// of the header is set to the number of words.
pub open spec fn finalized_bytes(words: Seq<u32>) -> Seq<u8> {
    unpack_words(words.update(1, words.len() as u32))
}

// ---------------------------------------------------------------------------
// Decodings (what the reader finds at an offset)
// ---------------------------------------------------------------------------

/// Number of words holding the bytes of a string of `len` bytes.
pub open spec fn str_words(len: int) -> int {
    (len + 3) / 4
}

/// The bytes of the string stored at `off`.
pub open spec fn str_bytes_at(words: Seq<u32>, off: int) -> Seq<u8> {
    let len = words[off] as int;
    unpack_words(words.subrange(off + 2, off + 2 + str_words(len))).take(len)
}

/// The text read back from the string stored at `off`.
pub open spec fn str_text_at(words: Seq<u32>, off: int) -> Seq<char> {
    let bytes = str_bytes_at(words, off);
    if valid_utf8(bytes) {
        decode_utf8(bytes)
    } else {
        utf8_error_text()
    }
}

/// The offset after the string stored at `off`.
pub open spec fn str_end(words: Seq<u32>, off: int) -> int {
    off + 2 + (words[off + 1] as int) / 4
}

/// The string stored at `off` lies inside `words`.
pub open spec fn str_readable_at(words: Seq<u32>, off: int) -> bool {
    &&& 0 <= off
    &&& off + 2 <= words.len()
    &&& off + 2 + str_words(words[off] as int) <= words.len()
    &&& str_end(words, off) <= usize::MAX
}

/// The slice stored at `off` lies inside `words`.
pub open spec fn slice_readable_at(words: Seq<u32>, off: int, item_words: int) -> bool {
    0 <= off && off < words.len() && off + 1 + (words[off] as int) * item_words <= words.len()
}

// ---------------------------------------------------------------------------
// Byte / word lemmas
// ---------------------------------------------------------------------------

proof fn lemma_word_bytes(b0: u8, b1: u8, b2: u8, b3: u8)
    ensures
        byte_of_word(word_of_bytes(b0, b1, b2, b3), 0) == b0,
        byte_of_word(word_of_bytes(b0, b1, b2, b3), 1) == b1,
        byte_of_word(word_of_bytes(b0, b1, b2, b3), 2) == b2,
        byte_of_word(word_of_bytes(b0, b1, b2, b3), 3) == b3,
{
    let w = word_of_bytes(b0, b1, b2, b3);
    assert(((b0 as u32) | ((b1 as u32) << 8u32) | ((b2 as u32) << 16u32) | ((b3 as u32) << 24u32))
        & 0xffu32 == b0 as u32) by (bit_vector);
    assert((((b0 as u32) | ((b1 as u32) << 8u32) | ((b2 as u32) << 16u32) | ((b3 as u32) << 24u32))
        >> 8u32) & 0xffu32 == b1 as u32) by (bit_vector);
    assert((((b0 as u32) | ((b1 as u32) << 8u32) | ((b2 as u32) << 16u32) | ((b3 as u32) << 24u32))
        >> 16u32) & 0xffu32 == b2 as u32) by (bit_vector);
    assert((((b0 as u32) | ((b1 as u32) << 8u32) | ((b2 as u32) << 16u32) | ((b3 as u32) << 24u32))
        >> 24u32) & 0xffu32 == b3 as u32) by (bit_vector);
}

proof fn lemma_bytes_word(w: u32)
    ensures
        word_of_bytes(
            byte_of_word(w, 0),
            byte_of_word(w, 1),
            byte_of_word(w, 2),
            byte_of_word(w, 3),
        ) == w,
{
    assert(((((w & 0xffu32) as u8) as u32) | ((((w >> 8u32) & 0xffu32) as u8 as u32) << 8u32) | ((
    ((w >> 16u32) & 0xffu32) as u8 as u32) << 16u32) | ((((w >> 24u32) & 0xffu32) as u8 as u32)
        << 24u32)) == w) by (bit_vector);
}

/// Packing the bytes of words gives the words back.
pub proof fn lemma_pack_unpack(words: Seq<u32>)
    ensures
        pack_words(unpack_words(words)) == words,
{
    let bytes = unpack_words(words);
    assert(bytes.len() / 4 == words.len()) by (nonlinear_arith)
        requires
            bytes.len() == words.len() * 4,
    ;
    assert forall|i: int| 0 <= i < words.len() implies #[trigger] pack_words(bytes)[i]
        == words[i] by {
        assert((4 * i) / 4 == i && (4 * i + 1) / 4 == i && (4 * i + 2) / 4 == i && (4 * i + 3) / 4
            == i);
        assert((4 * i) % 4 == 0 && (4 * i + 1) % 4 == 1 && (4 * i + 2) % 4 == 2 && (4 * i + 3) % 4
            == 3);
        assert(4 * i + 3 < words.len() * 4) by (nonlinear_arith)
            requires
                0 <= i < words.len(),
        ;
        lemma_bytes_word(words[i]);
    }
    assert(pack_words(bytes) =~= words);
}

/// Unpacking words packed from bytes gives the bytes back, when their number
/// is a multiple of four.
pub proof fn lemma_unpack_pack(bytes: Seq<u8>)
    requires
        bytes.len() % 4 == 0,
    ensures
        unpack_words(pack_words(bytes)) == bytes,
{
    let words = pack_words(bytes);
    assert(words.len() * 4 == bytes.len());
    assert forall|i: int| 0 <= i < bytes.len() implies #[trigger] unpack_words(words)[i]
        == bytes[i] by {
        let q = i / 4;
        let r = i % 4;
        assert(i == 4 * q + r);
        assert(0 <= q < words.len());
        lemma_word_bytes(bytes[4 * q], bytes[4 * q + 1], bytes[4 * q + 2], bytes[4 * q + 3]);
    }
    assert(unpack_words(words) =~= bytes);
}

proof fn lemma_unpack_subrange(words: Seq<u32>, lo: int, hi: int)
    requires
        0 <= lo <= hi <= words.len(),
    ensures
        unpack_words(words.subrange(lo, hi)) == unpack_words(words).subrange(4 * lo, 4 * hi),
{
    let a = unpack_words(words.subrange(lo, hi));
    let b = unpack_words(words).subrange(4 * lo, 4 * hi);
    assert(a.len() == b.len());
    assert forall|i: int| 0 <= i < a.len() implies a[i] == b[i] by {
        assert((4 * lo + i) / 4 == lo + i / 4);
        assert((4 * lo + i) % 4 == i % 4);
    }
    assert(a =~= b);
}

// ---------------------------------------------------------------------------
// Header
// ---------------------------------------------------------------------------

/// The two words at the start of every save file.
#[derive(Copy, Clone)]
pub struct SaveFileHeader {
    pub magic: u32,
    pub size: u32,
}

impl SaveFileHeader {
    /// A header with the save file magic and a size of zero.
    pub fn new() -> (h: Self)
        ensures
            h.magic == MAGIC,
            h.size == 0,
    {
        SaveFileHeader { magic: MAGIC, size: 0 }
    }
}

/// Errors of `SaveFileReader::new`.
#[derive(Copy, Clone, PartialEq, Eq, Structural, Debug)]
pub enum SaveError {
    /// The data is smaller than the save file header.
    TooSmall,
    /// The first word is not the save file magic.
    BadMagic,
    /// The size in the header is not the number of words in the data.
    SizeMismatch,
}

// ---------------------------------------------------------------------------
// Writer
// ---------------------------------------------------------------------------

/// Builds a save file word by word.
pub struct SaveFileWriter {
    data: Vec<u32>,
}

impl View for SaveFileWriter {
    type V = Seq<u32>;

    closed spec fn view(&self) -> Seq<u32> {
        self.data@
    }
}

impl SaveFileWriter {
    /// The words written so far start with the magic number and their count
    /// fits in a header word.
    pub open spec fn wf(&self) -> bool {
        &&& self@.len() >= HEADER_WORDS
        &&& self@[0] == MAGIC
        &&& self@.len() <= u32::MAX
    }

    /// A writer holding only the save file header.
    pub fn new() -> (w: Self)
        ensures
            w.wf(),
            w@ == seq![MAGIC, 0u32],
    {
        let mut writer = SaveFileWriter { data: Vec::with_capacity(3000) };
        writer.write_header();
        writer
    }

    fn write_header(&mut self)
        requires
            old(self)@.len() == 0,
        ensures
            final(self)@ == seq![MAGIC, 0u32],
    {
        let header = SaveFileHeader::new();
        self.data.push(header.magic);
        self.data.push(header.size);
        assert(self@ =~= seq![MAGIC, 0u32]);
    }

    /// Returns the bytes of the file: the header size word is set to the
    /// number of words written.
    pub fn finalize(self) -> (out: Vec<u8>)
        requires
            self.wf(),
        ensures
            out@ == finalized_bytes(self@),
    {
        let mut data = self.data;
        let total = data.len() as u32;
        data.set(1, total);
        let ghost words = data@;
        let mut out: Vec<u8> = Vec::new();
        let mut i: usize = 0;
        while i < data.len()
            invariant
                data@ == words,
                words.len() <= u32::MAX,
                i <= words.len(),
                out@ == unpack_words(words.subrange(0, i as int)),
            decreases words.len() - i,
        {
            let w = data[i];
            out.push((w & 0xff) as u8);
            out.push(((w >> 8) & 0xff) as u8);
            out.push(((w >> 16) & 0xff) as u8);
            out.push(((w >> 24) & 0xff) as u8);
            proof {
                let prev = words.subrange(0, i as int);
                let next = words.subrange(0, i + 1);
                assert(next =~= prev.push(w));
                assert(unpack_words(next) =~= unpack_words(prev) + seq![
                    byte_of_word(w, 0),
                    byte_of_word(w, 1),
                    byte_of_word(w, 2),
                    byte_of_word(w, 3),
                ]) by {
                    let a = unpack_words(next);
                    let b = unpack_words(prev) + seq![
                        byte_of_word(w, 0),
                        byte_of_word(w, 1),
                        byte_of_word(w, 2),
                        byte_of_word(w, 3),
                    ];
                    assert forall|j: int| 0 <= j < a.len() implies a[j] == b[j] by {
                        if j < 4 * i {
                        } else {
                            assert(j / 4 == i);
                        }
                    }
                }
            }
            i += 1;
        }
        assert(words.subrange(0, words.len() as int) =~= words);
        out
    }

    /// Appends one word.
    pub fn write_u32(&mut self, data: u32)
        requires
            old(self).wf(),
            old(self)@.len() + 1 <= u32::MAX,
        ensures
            final(self).wf(),
            final(self)@ == old(self)@.push(data),
    {
        self.data.push(data);
    }

    /// Appends the words of a raw plain value.
    pub fn write(&mut self, data: &[u32])
        requires
            old(self).wf(),
            old(self)@.len() + data@.len() <= u32::MAX,
        ensures
            final(self).wf(),
            final(self)@ == old(self)@ + data@,
    {
        let ghost start = self@;
        let mut i: usize = 0;
        while i < data.len()
            invariant
                i <= data@.len(),
                start.len() + data@.len() <= u32::MAX,
                start.len() >= HEADER_WORDS,
                start[0] == MAGIC,
                self@ == start + data@.subrange(0, i as int),
            decreases data@.len() - i,
        {
            self.data.push(data[i]);
            proof {
                assert(data@.subrange(0, i + 1) =~= data@.subrange(0, i as int).push(data@[i as int]));
            }
            i += 1;
        }
        assert(data@.subrange(0, data@.len() as int) =~= data@);
    }

    /// Appends a slice of items of `item_words` words each: the item count,
    /// then the words of the items.
    pub fn write_slice(&mut self, values: &[u32], item_words: usize)
        requires
            old(self).wf(),
            item_words > 0,
            values@.len() as int % (item_words as int) == 0,
            old(self)@.len() + 1 + values@.len() <= u32::MAX,
        ensures
            final(self).wf(),
            final(self)@ == old(self)@ + encode_slice(values@, item_words as int),
    {
        let count = (values.len() / item_words) as u32;
        self.data.push(count);
        self.write(values);
        assert(old(self)@ + encode_slice(values@, item_words as int) =~= old(self)@.push(count)
            + values@);
    }

    /// Appends a bool slice: its length, then 1 or 0 for each value.
    pub fn write_bool_slice(&mut self, values: &[bool])
        requires
            old(self).wf(),
            old(self)@.len() + 1 + values@.len() <= u32::MAX,
        ensures
            final(self).wf(),
            final(self)@ == old(self)@ + encode_bools(values@),
    {
        let ghost start = self@;
        self.data.push(values.len() as u32);
        let mut i: usize = 0;
        while i < values.len()
            invariant
                i <= values@.len(),
                start.len() + 1 + values@.len() <= u32::MAX,
                start.len() >= HEADER_WORDS,
                start[0] == MAGIC,
                self@ == start.push(values@.len() as u32) + values@.subrange(0, i as int).map_values(
                    |b: bool| bool_word(b),
                ),
            decreases values@.len() - i,
        {
            let word: u32 = if values[i] { 1 } else { 0 };
            self.data.push(word);
            proof {
                assert(values@.subrange(0, i + 1).map_values(|b: bool| bool_word(b))
                    =~= values@.subrange(0, i as int).map_values(|b: bool| bool_word(b)).push(word));
            }
            i += 1;
        }
        assert(values@.subrange(0, values@.len() as int) =~= values@);
        assert(start + encode_bools(values@) =~= start.push(values@.len() as u32) + values@.map_values(
            |b: bool| bool_word(b),
        ));
    }

    /// Appends a string: its byte length, its padded byte length, then its
    /// bytes packed four by four and padded with zeros.
    pub fn write_str(&mut self, value: &str)
        requires
            old(self).wf(),
            old(self)@.len() + 3 + value.spec_bytes().len() / 4 <= u32::MAX,
            value.spec_bytes().len() + 4 <= u32::MAX,
        ensures
            final(self).wf(),
            final(self)@ == old(self)@ + encode_str(value.spec_bytes()),
    {
        let bytes = value.as_bytes();
        let length = bytes.len();
        let padding = 4 - (length % 4);
        let padded_length = length + padding;
        let u32_count = padded_length / 4;
        let ghost start = self@;
        let ghost padded = pad_bytes(bytes@);
        assert(padded.len() == padded_length);
        assert(padded_length % 4 == 0);
        self.data.push(length as u32);
        self.data.push(padded_length as u32);
        let mut i: usize = 0;
        while i < u32_count
            invariant
                i <= u32_count,
                u32_count == padded_length / 4,
                padded_length == padded.len(),
                padded_length % 4 == 0,
                padded == pad_bytes(bytes@),
                length == bytes@.len(),
                start.len() + 2 + u32_count <= u32::MAX,
                start.len() >= HEADER_WORDS,
                start[0] == MAGIC,
                self@ == start + seq![length as u32, padded_length as u32] + pack_words(padded).subrange(
                    0,
                    i as int,
                ),
            decreases u32_count - i,
        {
            let base = 4 * i;
            let b0: u8 = if base < length { bytes[base] } else { 0 };
            let b1: u8 = if base + 1 < length { bytes[base + 1] } else { 0 };
            let b2: u8 = if base + 2 < length { bytes[base + 2] } else { 0 };
            let b3: u8 = if base + 3 < length { bytes[base + 3] } else { 0 };
            assert(b0 == padded[base as int] && b1 == padded[base + 1] && b2 == padded[base + 2] && b3
                == padded[base + 3]);
            let word = (b0 as u32) | ((b1 as u32) << 8u32) | ((b2 as u32) << 16u32) | ((b3 as u32)
                << 24u32);
            self.data.push(word);
            proof {
                assert(pack_words(padded).subrange(0, i + 1) =~= pack_words(padded).subrange(
                    0,
                    i as int,
                ).push(word));
            }
            i += 1;
        }
        assert(pack_words(padded).subrange(0, u32_count as int) =~= pack_words(padded));
        assert(start + encode_str(bytes@) =~= start + seq![length as u32, padded_length as u32]
            + pack_words(padded));
    }
}

// ---------------------------------------------------------------------------
// Reader
// ---------------------------------------------------------------------------

/// Reads the values of a save file one after another.
pub struct SaveFileReader {
    data: Vec<u32>,
    current_offset: usize,
}

impl SaveFileReader {
    /// The words of the file.
    pub closed spec fn words(&self) -> Seq<u32> {
        self.data@
    }

    /// The offset, in words, of the next value to read.
    pub closed spec fn offset(&self) -> int {
        self.current_offset as int
    }

    /// Opens a save file. The bytes are read as little endian words (trailing
    /// bytes that do not fill a word are ignored); the header must hold the
    /// magic number and the number of words. Reading starts after the header.
    pub fn new(bytes: &[u8]) -> (r: Result<Self, SaveError>)
        ensures
            bytes@.len() < 8 ==> r == Err::<Self, SaveError>(SaveError::TooSmall),
            bytes@.len() >= 8 ==> {
                let words = pack_words(bytes@);
                &&& words[0] != MAGIC ==> r == Err::<Self, SaveError>(SaveError::BadMagic)
                &&& words[0] == MAGIC && words[1] != words.len() as u32 ==> r == Err::<
                    Self,
                    SaveError,
                >(SaveError::SizeMismatch)
                &&& words[0] == MAGIC && words[1] == words.len() as u32 ==> (r matches Ok(reader)
                    && reader.words() == words && reader.offset() == HEADER_WORDS)
            },
    {
        if bytes.len() < 8 {
            return Err(SaveError::TooSmall);
        }
        let data = Self::validate_data_integrity(bytes);
        let mut reader = SaveFileReader { data, current_offset: 0 };
        match reader.validate_header() {
            Ok(()) => {},
            Err(e) => {
                return Err(e);
            },
        }
        reader.current_offset = HEADER_WORDS;
        Ok(reader)
    }

    pub(crate) fn validate_data_integrity(bytes: &[u8]) -> (words: Vec<u32>)
        ensures
            words@ == pack_words(bytes@),
    {
        let blen = bytes.len();
        let count = blen / ALIGN;
        let mut words: Vec<u32> = Vec::with_capacity(count);
        let mut i: usize = 0;
        while i < count
            invariant
                count == bytes@.len() / 4,
                blen == bytes@.len(),
                i <= count,
                words@ == pack_words(bytes@).subrange(0, i as int),
            decreases count - i,
        {
            proof {
                assert(4 * i + 3 < bytes@.len()) by (nonlinear_arith)
                    requires
                        i < count,
                        count == bytes@.len() / 4,
                ;
            }
            let base = 4 * i;
            let w = (bytes[base] as u32) | ((bytes[base + 1] as u32) << 8u32) | ((bytes[base
                + 2] as u32) << 16u32) | ((bytes[base + 3] as u32) << 24u32);
            words.push(w);
            proof {
                assert(pack_words(bytes@).subrange(0, i + 1) =~= pack_words(bytes@).subrange(
                    0,
                    i as int,
                ).push(w));
            }
            i += 1;
        }
        assert(pack_words(bytes@).subrange(0, count as int) =~= pack_words(bytes@));
        words
    }

    fn validate_header(&self) -> (r: Result<(), SaveError>)
        requires
            self.data@.len() >= HEADER_WORDS,
        ensures
            self.data@[0] != MAGIC ==> r == Err::<(), SaveError>(SaveError::BadMagic),
            self.data@[0] == MAGIC && self.data@[1] != self.data@.len() as u32 ==> r == Err::<
                (),
                SaveError,
            >(SaveError::SizeMismatch),
            self.data@[0] == MAGIC && self.data@[1] == self.data@.len() as u32 ==> r == Ok::<
                (),
                SaveError,
            >(()),
    {
        let header = SaveFileHeader { magic: self.data[0], size: self.data[1] };
        if header.magic != MAGIC {
            return Err(SaveError::BadMagic);
        }
        if header.size != self.data.len() as u32 {
            return Err(SaveError::SizeMismatch);
        }
        Ok(())
    }

    /// The number of words of the file.
    pub fn word_count(&self) -> (r: usize)
        ensures
            r == self.words().len(),
    {
        self.data.len()
    }

    /// The word at `index`, without reading it.
    pub fn word_at(&self, index: usize) -> (v: u32)
        requires
            index < self.words().len(),
        ensures
            v == self.words()[index as int],
    {
        self.data[index]
    }

    /// The offset, in words, of the next value to read.
    pub fn current_offset(&self) -> (r: usize)
        ensures
            r == self.offset(),
    {
        self.current_offset
    }

    /// Reads one word.
    pub fn read_u32(&mut self) -> (v: u32)
        requires
            old(self).offset() < old(self).words().len(),
        ensures
            v == old(self).words()[old(self).offset()],
            final(self).words() == old(self).words(),
            final(self).offset() == old(self).offset() + 1,
    {
        let n = self.data.len();
        let value = self.data[self.current_offset];
        self.current_offset += 1;
        value
    }

    /// Reads the `count` words of a raw plain value.
    pub fn read(&mut self, count: usize) -> (v: Vec<u32>)
        requires
            old(self).offset() + count <= old(self).words().len(),
        ensures
            v@ == old(self).words().subrange(old(self).offset(), old(self).offset() + count),
            final(self).words() == old(self).words(),
            final(self).offset() == old(self).offset() + count,
    {
        let start = self.current_offset;
        let n = self.data.len();
        let mut out: Vec<u32> = Vec::with_capacity(count);
        let mut i: usize = 0;
        while i < count
            invariant
                i <= count,
                start + count <= self.data@.len(),
                n == self.data@.len(),
                out@ == self.data@.subrange(start as int, start + i),
            decreases count - i,
        {
            out.push(self.data[start + i]);
            proof {
                assert(self.data@.subrange(start as int, start + i + 1) =~= self.data@.subrange(
                    start as int,
                    start + i,
                ).push(self.data@[start + i]));
            }
            i += 1;
        }
        self.current_offset = start + count;
        out
    }

    /// Reads a slice of items of `item_words` words each: the item count,
    /// then the words of the items.
    pub fn read_slice(&mut self, item_words: usize) -> (v: Vec<u32>)
        requires
            slice_readable_at(old(self).words(), old(self).offset(), item_words as int),
        ensures
            ({
                let words = old(self).words();
                let off = old(self).offset();
                let n = words[off] as int;
                &&& v@ == words.subrange(off + 1, off + 1 + n * item_words)
                &&& final(self).words() == words
                &&& final(self).offset() == off + 1 + n * item_words
            }),
    {
        let ghost words = self.data@;
        let ghost off = self.current_offset as int;
        let n = self.data.len();
        let length = self.read_u32();
        proof {
            assert((length as int) * (item_words as int) <= n) by (nonlinear_arith)
                requires
                    off + 1 + (length as int) * (item_words as int) <= n,
                    off >= 0,
            ;
        }
        let count = (length as usize) * item_words;
        self.read(count)
    }

    /// Reads a bool slice: its length, then one word per value (1 is true).
    pub fn read_bool_vec(&mut self) -> (v: Vec<bool>)
        requires
            slice_readable_at(old(self).words(), old(self).offset(), 1),
        ensures
            ({
                let words = old(self).words();
                let off = old(self).offset();
                let n = words[off] as int;
                &&& v@ == words.subrange(off + 1, off + 1 + n).map_values(|w: u32| w == 1)
                &&& final(self).words() == words
                &&& final(self).offset() == off + 1 + n
            }),
    {
        let ghost words = self.data@;
        let ghost off = self.current_offset as int;
        let length = self.read_u32();
        let mut values: Vec<bool> = Vec::with_capacity(length as usize);
        let mut i: u32 = 0;
        while i < length
            invariant
                i <= length,
                self.data@ == words,
                off >= 0,
                off + 1 + length <= words.len(),
                self.current_offset == off + 1 + i,
                values@ == words.subrange(off + 1, off + 1 + i).map_values(|w: u32| w == 1),
            decreases length - i,
        {
            let w = self.read_u32();
            values.push(w == 1);
            proof {
                assert(words.subrange(off + 1, off + 1 + i + 1) =~= words.subrange(off + 1, off + 1 + i).push(w));
                assert(words.subrange(off + 1, off + 1 + i + 1).map_values(|w: u32| w == 1)
                    =~= words.subrange(off + 1, off + 1 + i).map_values(|w: u32| w == 1).push(
                    w == 1,
                ));
            }
            i += 1;
        }
        values
    }

    /// Reads a string: its byte length, its padded length, then its bytes.
    /// Bytes that are not valid utf8 read as "UTF8 DECODING ERROR".
    pub fn read_str(&mut self) -> (s: String)
        requires
            str_readable_at(old(self).words(), old(self).offset()),
        ensures
            s@ == str_text_at(old(self).words(), old(self).offset()),
            final(self).words() == old(self).words(),
            final(self).offset() == str_end(old(self).words(), old(self).offset()),
    {
        let ghost words = self.data@;
        let ghost off = self.current_offset as int;
        let n = self.data.len();
        let length = self.read_u32();
        let length_padded = self.read_u32();
        let start = self.current_offset;
        let len = length as usize;
        let ghost word_count = str_words(len as int);
        let ghost unpacked = unpack_words(words.subrange(start as int, start + word_count));
        let mut bytes: Vec<u8> = Vec::with_capacity(len);
        let mut i: usize = 0;
        while i < len
            invariant
                i <= len,
                self.data@ == words,
                start == off + 2,
                start + word_count <= words.len(),
                words.len() == n,
                word_count == str_words(len as int),
                unpacked == unpack_words(words.subrange(start as int, start + word_count)),
                bytes@ == unpacked.take(i as int),
            decreases len - i,
        {
            let w = self.data[start + i / 4];
            let j = i % 4;
            let b: u8 = if j == 0 {
                (w & 0xff) as u8
            } else if j == 1 {
                ((w >> 8) & 0xff) as u8
            } else if j == 2 {
                ((w >> 16) & 0xff) as u8
            } else {
                ((w >> 24) & 0xff) as u8
            };
            proof {
                assert(i / 4 < word_count);
                assert(unpacked[i as int] == byte_of_word(words[start + i / 4], i as int % 4));
                assert(unpacked.take(i + 1) =~= unpacked.take(i as int).push(b));
            }
            bytes.push(b);
            i += 1;
        }
        let text = match utf8_to_string(bytes.as_slice()) {
            Some(text) => text,
            None => "UTF8 DECODING ERROR".to_owned(),
        };
        proof {
            reveal_strlit("UTF8 DECODING ERROR");
        }
        self.current_offset = start + (length_padded / 4) as usize;
        assert(bytes@ == str_bytes_at(words, off));
        text
    }
}

/// Decodes utf8 bytes with `std::str::from_utf8`, which returns `Ok` exactly
/// when the bytes are valid utf8, and then a string of the decoded characters.
#[verifier::external_body]
fn utf8_to_string(bytes: &[u8]) -> (r: Option<String>)
    ensures
        r is Some <==> valid_utf8(bytes@),
        r matches Some(s) ==> s@ == decode_utf8(bytes@),
{
    match std::str::from_utf8(bytes) {
        Ok(s) => Some(s.to_string()),
        Err(_) => None,
    }
}

// ---------------------------------------------------------------------------
// Laws: what a read gives back of a write
// ---------------------------------------------------------------------------

/// A string written by `write_str` is read back by `read_str`, which then
/// stands right after it.
pub proof fn lemma_str_round_trip(prefix: Seq<u32>, s: Seq<char>, suffix: Seq<u32>)
    requires
        encode_utf8(s).len() + 8 <= u32::MAX,
        prefix.len() + encode_str(encode_utf8(s)).len() + suffix.len() <= usize::MAX,
    ensures
        ({
            let words = prefix + encode_str(encode_utf8(s)) + suffix;
            let off = prefix.len() as int;
            &&& str_readable_at(words, off)
            &&& str_text_at(words, off) == s
            &&& str_end(words, off) == off + encode_str(encode_utf8(s)).len()
        }),
{
    let bytes = encode_utf8(s);
    let enc = encode_str(bytes);
    let words = prefix + enc + suffix;
    let off = prefix.len() as int;
    let len = bytes.len() as int;
    let padded = pad_bytes(bytes);
    let plen = padded_len(len);
    assert(padded.len() == plen);
    assert(plen % 4 == 0);
    let packed = pack_words(padded);
    assert(packed.len() == plen / 4);
    assert(enc.len() == 2 + plen / 4);
    assert(words[off] == len as u32);
    assert(words[off + 1] == plen as u32);
    assert(str_words(len) <= plen / 4);
    assert(words.subrange(off + 2, off + 2 + plen / 4) =~= packed);
    lemma_unpack_pack(padded);
    lemma_unpack_subrange(words.subrange(off + 2, off + 2 + plen / 4), 0, str_words(len));
    assert(words.subrange(off + 2, off + 2 + plen / 4).subrange(0, str_words(len)) =~= words.subrange(
        off + 2,
        off + 2 + str_words(len),
    ));
    assert(str_bytes_at(words, off) =~= bytes);
}

/// A string written by `write_str` followed by a word written by
/// `write_u32` read back in turn: `read_str` gives the string back and stops
/// just past its padded bytes, `2 + padded_len / 4` words after where it
/// started, which is where `read_u32` finds the word.
pub proof fn lemma_str_then_u32(prefix: Seq<u32>, s: Seq<char>, k: u32, suffix: Seq<u32>)
    requires
        encode_utf8(s).len() + 8 <= u32::MAX,
        prefix.len() + encode_str(encode_utf8(s)).len() + 1 + suffix.len() <= usize::MAX,
    ensures
        ({
            let words = prefix + encode_str(encode_utf8(s)) + seq![k] + suffix;
            let off = prefix.len() as int;
            let end = str_end(words, off);
            &&& str_readable_at(words, off)
            &&& str_text_at(words, off) == s
            &&& end == off + 2 + padded_len(encode_utf8(s).len() as int) / 4
            &&& end < words.len()
            &&& words[end] == k
        }),
{
    let bytes = encode_utf8(s);
    let enc = encode_str(bytes);
    let rest = seq![k] + suffix;
    let words = prefix + enc + seq![k] + suffix;
    let off = prefix.len() as int;
    assert(words =~= prefix + enc + rest);
    lemma_str_round_trip(prefix, s, rest);
    let plen = padded_len(bytes.len() as int);
    assert(pad_bytes(bytes).len() == plen);
    assert(pack_words(pad_bytes(bytes)).len() == plen / 4);
    assert(enc.len() == 2 + plen / 4);
    assert(words[off + enc.len()] == k);
}

/// A slice written by `write_slice` is read back by `read_slice`.
pub proof fn lemma_slice_round_trip(
    prefix: Seq<u32>,
    values: Seq<u32>,
    item_words: int,
    suffix: Seq<u32>,
)
    requires
        item_words > 0,
        values.len() as int % item_words == 0,
        values.len() <= u32::MAX,
    ensures
        ({
            let words = prefix + encode_slice(values, item_words) + suffix;
            let off = prefix.len() as int;
            let n = words[off] as int;
            &&& slice_readable_at(words, off, item_words)
            &&& words.subrange(off + 1, off + 1 + n * item_words) == values
            &&& off + 1 + n * item_words == off + encode_slice(values, item_words).len()
        }),
{
    let words = prefix + encode_slice(values, item_words) + suffix;
    let off = prefix.len() as int;
    let n = values.len() as int / item_words;
    assert(n * item_words == values.len()) by (nonlinear_arith)
        requires
            item_words > 0,
            values.len() as int % item_words == 0,
            n == values.len() as int / item_words,
    ;
    assert(words[off] as int == n);
    assert(words.subrange(off + 1, off + 1 + n * item_words) =~= values);
}

/// A bool slice written by `write_bool_slice` is read back by `read_bool_vec`.
pub proof fn lemma_bools_round_trip(prefix: Seq<u32>, values: Seq<bool>, suffix: Seq<u32>)
    requires
        values.len() <= u32::MAX,
    ensures
        ({
            let words = prefix + encode_bools(values) + suffix;
            let off = prefix.len() as int;
            let n = words[off] as int;
            &&& slice_readable_at(words, off, 1)
            &&& words.subrange(off + 1, off + 1 + n).map_values(|w: u32| w == 1) == values
            &&& off + 1 + n == off + encode_bools(values).len()
        }),
{
    let words = prefix + encode_bools(values) + suffix;
    let off = prefix.len() as int;
    let n = values.len() as int;
    assert(words.subrange(off + 1, off + 1 + n) =~= values.map_values(|b: bool| bool_word(b)));
    assert(words.subrange(off + 1, off + 1 + n).map_values(|w: u32| w == 1) =~= values);
}

/// Values written one after another read back in the same order, each
/// read taking exactly the words its write gave: a `u32` `a`, a raw one
/// word value `f` (such as the bits of an `f32`), a bool slice `bs`, a
/// slice `xs` of `item_words` words per item, then a `u32` `c`.
pub proof fn lemma_values_in_sequence(
    prefix: Seq<u32>,
    a: u32,
    f: u32,
    bs: Seq<bool>,
    xs: Seq<u32>,
    item_words: int,
    c: u32,
    suffix: Seq<u32>,
)
    requires
        bs.len() <= u32::MAX,
        item_words > 0,
        xs.len() as int % item_words == 0,
        xs.len() <= u32::MAX,
    ensures
        ({
            let words = prefix + seq![a, f] + encode_bools(bs) + encode_slice(xs, item_words) + seq![c] + suffix;
            let o0 = prefix.len() as int;
            let o2 = o0 + 2;
            let nb = words[o2] as int;
            let o3 = o2 + 1 + nb;
            let nx = words[o3] as int;
            let o4 = o3 + 1 + nx * item_words;
            &&& words[o0] == a
            &&& words[o0 + 1] == f
            &&& slice_readable_at(words, o2, 1)
            &&& words.subrange(o2 + 1, o2 + 1 + nb).map_values(|w: u32| w == 1) == bs
            &&& slice_readable_at(words, o3, item_words)
            &&& words.subrange(o3 + 1, o3 + 1 + nx * item_words) == xs
            &&& o4 < words.len()
            &&& words[o4] == c
        }),
{
    let eb = encode_bools(bs);
    let es = encode_slice(xs, item_words);
    let words = prefix + seq![a, f] + eb + es + seq![c] + suffix;
    let p1 = prefix + seq![a, f];
    let o2 = p1.len() as int;
    lemma_bools_round_trip(p1, bs, es + seq![c] + suffix);
    assert(words =~= p1 + eb + (es + seq![c] + suffix));
    let p2 = p1 + eb;
    let o3 = p2.len() as int;
    lemma_slice_round_trip(p2, xs, item_words, seq![c] + suffix);
    assert(words =~= p2 + es + (seq![c] + suffix));
    assert(words[o2] as int == bs.len());
    assert(o3 == o2 + 1 + bs.len());
    assert(words[o3 + es.len()] == c);
}

/// The bytes of a finished writer open as a save file holding exactly the
/// written words (with the header size set), positioned after the header.
pub proof fn lemma_finalize_open(words: Seq<u32>)
    requires
        words.len() >= HEADER_WORDS,
        words[0] == MAGIC,
        words.len() <= u32::MAX,
    ensures
        finalized_bytes(words).len() >= 8,
        pack_words(finalized_bytes(words)) == words.update(1, words.len() as u32),
        pack_words(finalized_bytes(words))[0] == MAGIC,
        pack_words(finalized_bytes(words))[1] == pack_words(finalized_bytes(words)).len() as u32,
{
    let fixed = words.update(1, words.len() as u32);
    lemma_pack_unpack(fixed);
}

} // verus!
