//! A text builder over a caller-provided byte buffer of fixed size.
//!
//! The builder never allocates and never writes past the buffer: an append
//! that does not fit is refused and leaves the text as it was.

use vstd::prelude::*;
use vstd::slice::slice_subrange;
use vstd::string::StringSliceAdditionalSpecFns;
use vstd::utf8::{
    decode_utf8, encode_utf8, encode_utf8_decode_utf8, encode_utf8_valid_utf8, is_ascii_chars,
    is_ascii_chars_encode_utf8, valid_utf8,
};

verus! {

#[verifier::external_type_specification]
#[verifier::external_body]
pub struct ExUtf8Error(core::str::Utf8Error);

/// `core::str::from_utf8`: succeeds exactly on well-formed UTF-8, and the
/// string it returns is laid over the very bytes it was given.
pub assume_specification[ core::str::from_utf8 ](v: &[u8]) -> (r: Result<
    &str,
    core::str::Utf8Error,
>)
    ensures
        r is Ok <==> valid_utf8(v@),
        r matches Ok(s) ==> s.spec_bytes() == v@,
;

/// An append was refused because the text would not fit in the buffer.
#[derive(Clone, Copy, Debug, PartialEq, Eq, Structural)]
pub struct CapacityError;

/// The characters that the bytes `bytes` spell when each byte is one ASCII
/// character.
pub open spec fn ascii_text(bytes: Seq<u8>) -> Seq<char> {
    Seq::new(bytes.len(), |i: int| bytes[i] as char)
}

/// True when every byte of `bytes` is an ASCII code.
pub open spec fn ascii_bytes(bytes: Seq<u8>) -> bool {
    forall|i: int| 0 <= i < bytes.len() ==> #[trigger] bytes[i] < 128
}

/// ASCII bytes are the UTF-8 encoding of the text they spell, and of no
/// other text.
pub proof fn lemma_ascii_bytes_are_utf8(bytes: Seq<u8>)
    requires
        ascii_bytes(bytes),
    ensures
        is_ascii_chars(ascii_text(bytes)),
        encode_utf8(ascii_text(bytes)) == bytes,
        valid_utf8(bytes),
        decode_utf8(bytes) == ascii_text(bytes),
{
    let text = ascii_text(bytes);
    assert forall|i: int| 0 <= i < text.len() implies '\0' <= #[trigger] text[i] <= '\u{7f}' by {
        assert(bytes[i] < 128);
    }
    is_ascii_chars_encode_utf8(text);
    assert forall|i: int| 0 <= i < bytes.len() implies encode_utf8(text)[i] == bytes[i] by {
        assert(bytes[i] < 128);
        assert(text[i] as u8 == bytes[i]);
    }
    assert(encode_utf8(text) =~= bytes);
    encode_utf8_valid_utf8(text);
    encode_utf8_decode_utf8(text);
}

/// The bytes `bytes` with the ASCII text `text` laid over them from `at`
/// on: the bytes of the text in its place, every other byte as it was.
pub open spec fn overlaid(bytes: Seq<u8>, at: int, text: Seq<char>) -> Seq<u8> {
    Seq::new(
        bytes.len(),
        |i: int|
            if at <= i < at + text.len() {
                text[i - at] as u8
            } else {
                bytes[i]
            },
    )
}

/// A text of one character is laid over one byte.
pub proof fn lemma_overlaid_one(bytes: Seq<u8>, at: int, c: char)
    requires
        0 <= at < bytes.len(),
    ensures
        overlaid(bytes, at, seq![c]) == bytes.update(at, c as u8),
{
    assert(overlaid(bytes, at, seq![c]) =~= bytes.update(at, c as u8));
}

/// Two texts laid down one behind the other are their concatenation laid
/// down at once.
pub proof fn lemma_overlaid_twice(bytes: Seq<u8>, at: int, first: Seq<char>, second: Seq<char>)
    requires
        0 <= at,
    ensures
        overlaid(overlaid(bytes, at, first), at + first.len(), second) == overlaid(
            bytes,
            at,
            first + second,
        ),
{
    assert(overlaid(overlaid(bytes, at, first), at + first.len(), second) =~= overlaid(
        bytes,
        at,
        first + second,
    ));
}

/// A writer of ASCII text into a borrowed byte buffer. The text stands at
/// the front of the buffer, one byte for each character; the bytes behind
/// it are the caller's and stay as they are until text is written over
/// them.
pub struct BufW<'a> {
    buf: &'a mut [u8],
    idx: usize,
}

impl<'a> BufW<'a> {
    #[verifier::type_invariant]
    spec fn inv(self) -> bool {
        &&& self.idx <= self.buf@.len()
        &&& forall|i: int| 0 <= i < self.idx ==> #[trigger] self.buf@[i] < 128
    }

    /// The bytes of the whole buffer, written or not.
    pub closed spec fn bytes(&self) -> Seq<u8> {
        self.buf@
    }

    /// The text written so far.
    pub closed spec fn view(&self) -> Seq<char> {
        Seq::new(
            if self.idx <= self.buf@.len() {
                self.idx as nat
            } else {
                self.buf@.len()
            },
            |i: int| self.buf@[i] as char,
        )
    }

    /// The number of characters that the buffer can hold in all.
    pub closed spec fn capacity(&self) -> nat {
        self.buf@.len()
    }

    /// The buffer holds as many bytes as it can hold characters, and the
    /// text is what the bytes at its front spell, never more than the
    /// buffer holds.
    pub proof fn lemma_text_in_buffer(&self)
        ensures
            self.bytes().len() == self.capacity(),
            self@.len() <= self.capacity(),
            self@ == ascii_text(self.bytes().subrange(0, self@.len() as int)),
    {
        assert(self@ =~= ascii_text(self.bytes().subrange(0, self@.len() as int)));
    }

    /// Starts an empty text over `buf`, of which no byte is touched.
    pub fn new(buf: &'a mut [u8]) -> (w: Self)
        requires
            old(buf)@.len() > 0,
        ensures
            w@ == Seq::<char>::empty(),
            w.capacity() == old(buf)@.len(),
            w.bytes() == old(buf)@,
            w@.len() <= w.capacity(),
    {
        let w = BufW { buf, idx: 0 };
        assert(w@ =~= Seq::<char>::empty());
        w
    }

    /// The text written so far, borrowed from the buffer.
    pub fn utf8(&self) -> (s: &str)
        ensures
            s@ == self@,
            s@.len() <= self.capacity(),
            is_ascii_chars(s@),
            self.bytes().len() == self.capacity(),
            s@ == ascii_text(self.bytes().subrange(0, s@.len() as int)),
    {
        proof {
            use_type_invariant(self);
            self.lemma_text_in_buffer();
        }
        let written = slice_subrange(&*self.buf, 0, self.idx);
        proof {
            lemma_ascii_bytes_are_utf8(written@);
        }
        let s = core::str::from_utf8(written).unwrap();
        proof {
            encode_utf8_decode_utf8(s@);
        }
        s
    }

    /// Appends the ASCII text `s`, or nothing at all if it does not fit:
    /// the bytes of `s` are written behind the text and no other byte is
    /// touched, and where `s` does not fit no byte is.
    pub fn write_str(&mut self, s: &str) -> (r: Result<(), CapacityError>)
        requires
            is_ascii_chars(s@),
        ensures
            final(self).capacity() == old(self).capacity(),
            final(self).bytes().len() == old(self).bytes().len(),
            final(self)@.len() <= final(self).capacity(),
            r is Ok <==> old(self)@.len() + s@.len() <= old(self).capacity(),
            r is Ok ==> final(self)@ == old(self)@ + s@,
            r is Ok ==> final(self).bytes() == overlaid(
                old(self).bytes(),
                old(self)@.len() as int,
                s@,
            ),
            r is Err ==> final(self)@ == old(self)@,
            r is Err ==> final(self).bytes() == old(self).bytes(),
    {
        proof {
            use_type_invariant(&*self);
            is_ascii_chars_encode_utf8(s@);
        }
        let src = s.as_bytes();
        if self.buf.len() - self.idx < src.len() {
            return Err(CapacityError);
        }
        let start = self.idx;
        let mut k: usize = 0;
        while k < src.len()
            invariant
                src@ == s.spec_bytes(),
                src@.len() == s@.len(),
                is_ascii_chars(s@),
                forall|i: int| 0 <= i < s@.len() ==> s@[i] as u8 == #[trigger] src@[i],
                k <= src@.len(),
                start + src@.len() <= self.buf@.len(),
                self.idx == start + k,
                self.buf@.len() == old(self).buf@.len(),
                start == old(self).idx,
                forall|i: int|
                    0 <= i < self.buf@.len() ==> #[trigger] self.buf@[i] == (if start <= i < start
                        + k {
                        src@[i - start]
                    } else {
                        old(self).buf@[i]
                    }),
            decreases src@.len() - k,
        {
            let b = src[k];
            proof {
                assert(s@[k as int] as u8 == src@[k as int]);
                assert('\0' <= s@[k as int] <= '\u{7f}');
            }
            self.write_byte(b);
            k = k + 1;
        }
        proof {
            assert(final(self).bytes() =~= overlaid(old(self).bytes(), start as int, s@));
            assert(final(self)@ =~= old(self)@ + s@) by {
                assert forall|i: int| 0 <= i < start + s@.len() implies final(self)@[i] == (old(
                    self,
                )@ + s@)[i] by {
                    if i >= start {
                        assert(self.buf@[i] == src@[i - start]);
                        assert(s@[i - start] as u8 == src@[i - start]);
                        assert('\0' <= s@[i - start] <= '\u{7f}');
                    }
                }
            }
        }
        Ok(())
    }

    /// Appends the character `c`, or nothing if the buffer is full: the
    /// byte of `c` is written behind the text and no other byte is touched,
    /// and where the buffer is full no byte is. A character that is to be
    /// written is to be ASCII.
    pub fn write_char(&mut self, c: char) -> (r: Result<(), CapacityError>)
        requires
            old(self)@.len() < old(self).capacity() ==> '\0' <= c <= '\u{7f}',
        ensures
            final(self).capacity() == old(self).capacity(),
            final(self).bytes().len() == old(self).bytes().len(),
            final(self)@.len() <= final(self).capacity(),
            r is Ok <==> old(self)@.len() < old(self).capacity(),
            r is Ok ==> final(self)@ == old(self)@.push(c),
            r is Ok ==> final(self).bytes() == old(self).bytes().update(
                old(self)@.len() as int,
                c as u8,
            ),
            r is Err ==> final(self)@ == old(self)@,
            r is Err ==> final(self).bytes() == old(self).bytes(),
    {
        proof {
            use_type_invariant(&*self);
        }
        if self.buf.len() <= self.idx {
            return Err(CapacityError);
        }
        self.write_byte(c as u8);
        assert(final(self)@ =~= old(self)@.push(c));
        Ok(())
    }

    /// Stores one ASCII byte behind the text and makes it part of the text.
    fn write_byte(&mut self, b: u8)
        requires
            b < 128,
            old(self).idx < old(self).buf@.len(),
        ensures
            final(self).idx == old(self).idx + 1,
            final(self).buf@ == old(self).buf@.update(old(self).idx as int, b),
    {
        proof {
            use_type_invariant(&*self);
        }
        self.buf[self.idx] = b;
        self.idx = self.idx + 1;
    }
}

} // verus!
