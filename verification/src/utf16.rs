//! Strings of 16-bit code units, and the conversion of loosely encoded
//! bytes into such units.
use vstd::prelude::*;
use vstd::string::StringSliceAdditionalSpecFns;

verus! {

pub const HI_SURR_START: u16 = 0xD800;

pub const HI_SURR_END: u16 = 0xDBFF;

pub const LO_SURR_START: u16 = 0xDC00;

pub const LO_SURR_END: u16 = 0xDFFF;

/// A string of 16-bit code units.
pub struct Str16<'a>(&'a [u16]);

/// The unit counts as a high surrogate when `Str16::new` looks for pairs:
/// the high range without its last unit, `0xDBFF`, which is taken as an
/// ordinary unit.
pub open spec fn seen_as_high(cu: u16) -> bool {
    HI_SURR_START <= cu < HI_SURR_END
}

/// The unit is a low surrogate.
pub open spec fn low_surrogate(cu: u16) -> bool {
    LO_SURR_START <= cu <= LO_SURR_END
}

/// The units pass the pairing that `Str16::new` looks for: every unit that
/// counts as a high surrogate is followed at once by a low surrogate, and
/// every low surrogate comes right after a unit that counts as a high one.
/// With `0xDBFF` not counted, this is not the pairing of UTF-16: the pair
/// `0xDBFF 0xDC00` does not pass, and a lone `0xDBFF` does.
pub open spec fn seen_as_paired(units: Seq<u16>) -> bool {
    &&& forall|i: int|
        0 <= i < units.len() && seen_as_high(#[trigger] units[i]) ==> i + 1 < units.len()
            && low_surrogate(units[i + 1])
    &&& forall|i: int|
        0 <= i < units.len() && low_surrogate(#[trigger] units[i]) ==> i > 0 && seen_as_high(
            units[i - 1],
        )
}

impl<'a> Str16<'a> {
    /// The units of the string.
    pub closed spec fn view(&self) -> Seq<u16> {
        self.0@
    }

    /// A string of these units, if they pass the pairing that
    /// `seen_as_paired` describes.
    pub fn new(v: &'a [u16]) -> (s: Option<Str16<'a>>)
        ensures
            s is Some <==> seen_as_paired(v@),
            s matches Some(str16) ==> str16@ == v@,
    {
        let mut expect_low = false;
        let mut i: usize = 0;
        while i < v.len()
            invariant
                i <= v@.len(),
                expect_low == (i > 0 && seen_as_high(v@[i - 1])),
                forall|j: int|
                    0 <= j < i && seen_as_high(#[trigger] v@[j]) && j + 1 < i ==> low_surrogate(
                        v@[j + 1],
                    ),
                forall|j: int|
                    0 <= j < i && low_surrogate(#[trigger] v@[j]) ==> j > 0 && seen_as_high(
                        v@[j - 1],
                    ),
            decreases v@.len() - i,
        {
            let cu = v[i];
            if expect_low {
                if LO_SURR_START <= cu && cu <= LO_SURR_END {
                    expect_low = false;
                } else {
                    return None;
                }
            } else {
                if HI_SURR_START <= cu && cu < HI_SURR_END {
                    expect_low = true;
                } else if LO_SURR_START <= cu && cu <= LO_SURR_END {
                    return None;
                } else {
                }
            }
            i = i + 1;
        }
        if expect_low {
            return None;
        }
        Some(Str16(v))
    }

    /// A string of these units, whatever they are.
    pub fn new_unchecked(v: &'a [u16]) -> (s: Str16<'a>)
        ensures
            s@ == v@,
    {
        Str16(v)
    }
}

/// The byte continues a sequence.
pub open spec fn continues(b: u8) -> bool {
    0x80 <= b <= 0xBF
}

/// The number that the four bytes of a long sequence make.
pub open spec fn long_value(b1: u8, b2: u8, b3: u8, b4: u8) -> u32 {
    (b1 as u32 & 0x7) << 18 | (b2 as u32 & 0x3F) << 12 | (b3 as u32 & 0x3F) << 6 | (b4 as u32
        & 0x3F)
}

/// The bytes start with a long sequence: a first byte from `0xF0` to `0xF7`
/// and three bytes that continue it.
pub open spec fn starts_long(bytes: Seq<u8>) -> bool {
    bytes.len() >= 4 && 0xF0 <= bytes[0] <= 0xF7 && continues(bytes[1]) && continues(bytes[2])
        && continues(bytes[3])
}

/// The bytes can be converted from their start: they do not start with a
/// long sequence for a number that a shorter one could hold.
pub open spec fn convertible(bytes: Seq<u8>) -> bool {
    starts_long(bytes) ==> long_value(bytes[0], bytes[1], bytes[2], bytes[3]) >= 0x1_0000
}

/// The number of bytes that the first unit takes: the length of the
/// sequence at the start, and 1 for a byte that starts no whole sequence.
pub open spec fn first_width(bytes: Seq<u8>) -> int {
    if bytes.len() >= 2 && 0xC0 <= bytes[0] <= 0xDF && continues(bytes[1]) {
        2
    } else if bytes.len() >= 3 && 0xE0 <= bytes[0] <= 0xEF && continues(bytes[1]) && continues(
        bytes[2],
    ) {
        3
    } else if starts_long(bytes) {
        4
    } else {
        1
    }
}

/// The first unit of the bytes: the number of the sequence at their start,
/// cut to 16 bits for a long sequence, and the byte itself where the first
/// byte starts no whole sequence.
pub open spec fn first_unit(bytes: Seq<u8>) -> u16 {
    if first_width(bytes) == 2 {
        (bytes[0] as u16 & 0x1F) << 6 | (bytes[1] as u16 & 0x3F)
    } else if first_width(bytes) == 3 {
        (bytes[0] as u16 & 0xF) << 12 | (bytes[1] as u16 & 0x3F) << 6 | (bytes[2] as u16 & 0x3F)
    } else if first_width(bytes) == 4 {
        (long_value(bytes[0], bytes[1], bytes[2], bytes[3]) & 0xFFFF) as u16
    } else {
        bytes[0] as u16
    }
}

/// The conversion of bytes into 16-bit units, unit by unit.
pub struct Wtf8ToUtf16<'a> {
    input: &'a [u8],
    pos: usize,
    pending: Option<u16>,
}

/// Converts bytes in the loose 8-bit encoding into 16-bit units.
pub fn wtf8_to_utf16(input: &[u8]) -> (units: Wtf8ToUtf16<'_>)
    ensures
        units.rest() == input@,
        units.pending() is None,
{
    Wtf8ToUtf16 { input, pos: 0, pending: None }
}

impl<'a> Wtf8ToUtf16<'a> {
    /// The bytes that are left.
    pub closed spec fn rest(&self) -> Seq<u8> {
        if self.pos <= self.input@.len() {
            self.input@.skip(self.pos as int)
        } else {
            Seq::empty()
        }
    }

    /// A unit that is given out before any more bytes are taken.
    pub closed spec fn pending(&self) -> Option<u16> {
        self.pending
    }

    /// The next unit can be got.
    pub open spec fn can_advance(&self) -> bool {
        self.pending() is None ==> convertible(self.rest())
    }

    fn pop_front(&mut self) -> (b: Option<u8>)
        ensures
            final(self).pending() == old(self).pending(),
            b is None <==> old(self).rest().len() == 0,
            b is None ==> final(self).rest() == old(self).rest(),
            b matches Some(v) ==> v == old(self).rest()[0] && final(self).rest() == old(
                self,
            ).rest().skip(1),
    {
        if self.pos < self.input.len() {
            let rv = self.input[self.pos];
            self.pos = self.pos + 1;
            Some(rv)
        } else {
            None
        }
    }

    /// The byte `ahead` places after the next one, if there is one.
    fn peek(&self, ahead: usize) -> (b: Option<u8>)
        ensures
            b == if ahead < self.rest().len() {
                Some(self.rest()[ahead as int])
            } else {
                None
            },
    {
        if self.pos <= self.input.len() && ahead < self.input.len() - self.pos {
            Some(self.input[self.pos + ahead])
        } else {
            None
        }
    }

    /// Whether the next unit can be got: `next` must not be called where
    /// this is false.
    pub fn check_advance(&self) -> (ok: bool)
        ensures
            ok == self.can_advance(),
    {
        if self.pending.is_some() {
            return true;
        }
        match (self.peek(0), self.peek(1), self.peek(2), self.peek(3)) {
            (Some(b1), Some(b2), Some(b3), Some(b4)) => {
                if 0xF0 <= b1 && b1 <= 0xF7 && is_continuation(b2) && is_continuation(b3)
                    && is_continuation(b4) {
                    long_codepoint(b1, b2, b3, b4) >= 0x1_0000
                } else {
                    true
                }
            },
            _ => true,
        }
    }

    /// The next unit; `None` when the bytes are used up.
    pub fn next(&mut self) -> (unit: Option<u16>)
        requires
            old(self).can_advance(),
        ensures
            match old(self).pending() {
                Some(cu) => unit == Some(cu) && final(self).rest() == old(self).rest(),
                None => if old(self).rest().len() == 0 {
                    unit is None && final(self).rest() == old(self).rest()
                } else {
                    unit == Some(first_unit(old(self).rest())) && final(self).rest() == old(
                        self,
                    ).rest().skip(first_width(old(self).rest()))
                },
            },
            final(self).pending() is None,
    {
        match self.pending {
            Some(rv) => {
                self.pending = None;
                return Some(rv);
            },
            None => {},
        }
        let first = match self.pop_front() {
            Some(b) => b,
            None => {
                return None;
            },
        };
        if first <= 0x7F {
            return Some(first as u16);
        }
        let second = self.peek(0);
        let third = self.peek(1);
        let fourth = self.peek(2);
        if 0xC0 <= first && first <= 0xDF {
            if let Some(b2) = second {
                if is_continuation(b2) {
                    let _ = self.pop_front();
                    return Some((first as u16 & 0x1F) << 6 | (b2 as u16 & 0x3F));
                }
            }
        } else if 0xE0 <= first && first <= 0xEF {
            if let (Some(b2), Some(b3)) = (second, third) {
                if is_continuation(b2) && is_continuation(b3) {
                    let _ = self.pop_front();
                    let _ = self.pop_front();
                    return Some(
                        (first as u16 & 0xF) << 12 | (b2 as u16 & 0x3F) << 6 | (b3 as u16 & 0x3F),
                    );
                }
            }
        } else if 0xF0 <= first && first <= 0xF7 {
            if let (Some(b2), Some(b3), Some(b4)) = (second, third, fourth) {
                if is_continuation(b2) && is_continuation(b3) && is_continuation(b4) {
                    let _ = self.pop_front();
                    let _ = self.pop_front();
                    let _ = self.pop_front();
                    let codepoint = long_codepoint(first, b2, b3, b4);
                    if codepoint < 0x1_0000 {
                        let codepoint_adj = codepoint - 0x1_0000;
                        let cu1 = HI_SURR_START + (codepoint_adj >> 10) as u16;
                        let cu2 = LO_SURR_START + (codepoint_adj & 0x3FF) as u16;
                        self.pending = Some(cu2);
                        return Some(cu1);
                    } else {
                        assert(codepoint as u16 == (codepoint & 0xFFFF) as u16) by (bit_vector);
                        return Some(#[verifier::truncate] (codepoint as u16));
                    }
                }
            }
        }
        Some(first as u16)
    }
}

/// Whether the byte continues a sequence.
fn is_continuation(b: u8) -> (yes: bool)
    ensures
        yes == continues(b),
{
    0x80 <= b && b <= 0xBF
}

/// The number that the four bytes of a long sequence make.
fn long_codepoint(b1: u8, b2: u8, b3: u8, b4: u8) -> (codepoint: u32)
    ensures
        codepoint == long_value(b1, b2, b3, b4),
{
    (b1 as u32 & 0x7) << 18 | (b2 as u32 & 0x3F) << 12 | (b3 as u32 & 0x3F) << 6 | (b4 as u32
        & 0x3F)
}

/// The unit is in the surrogate range.
pub open spec fn surrogate(cu: u16) -> bool {
    HI_SURR_START <= cu <= LO_SURR_END
}

/// The characters of a string of 16-bit units, one by one.
pub struct Chars<'a> {
    units: &'a [u16],
    pos: usize,
}

/// `char::from_u32` of the standard library: the character of a number, if
/// the number is a Unicode scalar value, which is any number up to
/// `0x10FFFF` outside the surrogate range.
#[verifier::external_body]
fn char_from_u32(i: u32) -> (c: Option<char>)
    ensures
        c is Some <==> vstd::utf8::is_scalar(i),
        c matches Some(ch) ==> ch as u32 == i,
{
    char::from_u32(i)
}

impl<'a> Chars<'a> {
    /// The units that are left.
    pub closed spec fn rest(&self) -> Seq<u16> {
        if self.pos <= self.units@.len() {
            self.units@.skip(self.pos as int)
        } else {
            Seq::empty()
        }
    }

    /// The next character can be got: the next unit, if there is one, is
    /// not a surrogate.
    pub open spec fn can_advance(&self) -> bool {
        self.rest().len() > 0 ==> !surrogate(self.rest()[0])
    }

    /// Whether the next character can be got: `next` must not be called
    /// where this is false.
    pub fn check_advance(&self) -> (ok: bool)
        ensures
            ok == self.can_advance(),
    {
        if self.pos < self.units.len() {
            let cu = self.units[self.pos];
            !(HI_SURR_START <= cu && cu <= LO_SURR_END)
        } else {
            true
        }
    }

    /// The next character: the one whose number is the next unit. `None`
    /// when the units are used up.
    pub fn next(&mut self) -> (c: Option<char>)
        requires
            old(self).can_advance(),
        ensures
            c is None <==> old(self).rest().len() == 0,
            c is None ==> final(self).rest() == old(self).rest(),
            c matches Some(ch) ==> ch as u32 == old(self).rest()[0] && final(self).rest() == old(
                self,
            ).rest().skip(1),
    {
        if self.pos >= self.units.len() {
            return None;
        }
        let v = self.units[self.pos];
        self.pos = self.pos + 1;
        let c = char_from_u32(v as u32);
        c
    }
}

impl<'a> Str16<'a> {
    /// The characters of the string.
    pub fn chars(&self) -> (chars: Chars<'a>)
        ensures
            chars.rest() == self@,
    {
        Chars { units: self.0, pos: 0 }
    }

    /// The bytes of the string's characters in the 8-bit encoding.
    pub fn wtf8(&self) -> (bytes: Wtf8<'a>)
        ensures
            bytes.chars().rest() == self@,
            bytes.buffered() == Seq::<u8>::empty(),
    {
        Wtf8::new(self.chars())
    }
}

/// The bytes of characters in the 8-bit encoding, one by one.
pub struct Wtf8<'a> {
    chars: Chars<'a>,
    buf: [u8; 4],
}

/// The bytes of a buffer before its first zero.
pub open spec fn before_zero(buf: Seq<u8>) -> Seq<u8>
    decreases buf.len(),
{
    if buf.len() == 0 || buf[0] == 0 {
        Seq::empty()
    } else {
        seq![buf[0]] + before_zero(buf.skip(1))
    }
}

impl<'a> Wtf8<'a> {
    /// The characters that are left to encode.
    pub closed spec fn chars(&self) -> Chars<'a> {
        self.chars
    }

    /// The bytes of the last character that are left to give out.
    pub closed spec fn buffered(&self) -> Seq<u8> {
        before_zero(self.buf@)
    }

    /// The bytes of these characters.
    pub fn new(i: Chars<'a>) -> (bytes: Wtf8<'a>)
        ensures
            bytes.chars() == i,
            bytes.buffered() == Seq::<u8>::empty(),
    {
        Wtf8 { chars: i, buf: [0;4] }
    }

    /// The next byte can be got.
    pub open spec fn can_advance(&self) -> bool {
        self.buffered().len() == 0 ==> self.chars().can_advance()
    }

    /// Whether the next byte can be got: `next` must not be called where
    /// this is false.
    pub fn check_advance(&self) -> (ok: bool)
        ensures
            ok == self.can_advance(),
    {
        if self.buf[0] == 0 {
            self.chars.check_advance()
        } else {
            true
        }
    }

    /// The next byte: the next of the bytes that are left of the last
    /// character, or the first byte of the next character. `None` when the
    /// characters are used up and no byte is left.
    pub fn next(&mut self) -> (byte: Option<u8>)
        requires
            old(self).can_advance(),
        ensures
            old(self).buffered().len() > 0 ==> {
                &&& byte == Some(old(self).buffered()[0])
                &&& final(self).buffered() == old(self).buffered().skip(1)
                &&& final(self).chars() == old(self).chars()
            },
            old(self).buffered().len() == 0 && old(self).chars().rest().len() == 0 ==> {
                &&& byte is None
                &&& final(self).buffered().len() == 0
                &&& final(self).chars().rest() == old(self).chars().rest()
            },
            old(self).buffered().len() == 0 && old(self).chars().rest().len() > 0 ==> {
                let encoded = vstd::utf8::encode_scalar(old(self).chars().rest()[0] as u32);
                &&& byte == Some(encoded[0])
                &&& final(self).buffered() == encoded.skip(1)
                &&& final(self).chars().rest() == old(self).chars().rest().skip(1)
            },
    {
        if self.buf[0] == 0 {
            match self.chars.next() {
                None => {
                    return None;
                },
                Some(c) => {
                    self.buf = encode(c);
                    proof {
                        lemma_encoded(vstd::utf8::encode_scalar(c as u32), self.buf@);
                    }
                },
            }
        }
        let ghost full = self.buf@;
        let rv = self.buf[0];
        self.buf = [self.buf[1], self.buf[2], self.buf[3], 0];
        proof {
            lemma_shift(full);
        }
        Some(rv)
    }
}

/// The bytes of a character in the 8-bit encoding, with zeroes after them.
fn encode(c: char) -> (buf: [u8; 4])
    ensures
        buf@ == vstd::utf8::encode_scalar(c as u32) + Seq::new(
            (4 - vstd::utf8::encode_scalar(c as u32).len()) as nat,
            |i: int| 0u8,
        ),
        forall|i: int| 1 <= i < vstd::utf8::encode_scalar(c as u32).len() ==> buf@[i] != 0,
{
    let u = c as u32;
    if u < 0x80 {
        let b1 = (u & 0x7F) as u8;
        let buf = [b1, 0, 0, 0];
        buf
    } else if u < 0x800 {
        let b1 = 0xC0 | ((u >> 6) & 0x1F) as u8;
        let b2 = 0x80 | (u & 0x3F) as u8;
        assert(0x80u8 | (u & 0x3F) as u8 != 0) by (bit_vector);
        let buf = [b1, b2, 0, 0];
        buf
    } else if u < 0x1_0000 {
        let b1 = 0xE0 | ((u >> 12) & 0x0F) as u8;
        let b2 = 0x80 | ((u >> 6) & 0x3F) as u8;
        let b3 = 0x80 | (u & 0x3F) as u8;
        assert(0x80u8 | ((u >> 6) & 0x3F) as u8 != 0) by (bit_vector);
        assert(0x80u8 | (u & 0x3F) as u8 != 0) by (bit_vector);
        let buf = [b1, b2, b3, 0];
        buf
    } else {
        let b1 = 0xF0 | ((u >> 18) & 0x7) as u8;
        let b2 = 0x80 | ((u >> 12) & 0x3F) as u8;
        let b3 = 0x80 | ((u >> 6) & 0x3F) as u8;
        let b4 = 0x80 | (u & 0x3F) as u8;
        assert(0x80u8 | ((u >> 12) & 0x3F) as u8 != 0) by (bit_vector);
        assert(0x80u8 | ((u >> 6) & 0x3F) as u8 != 0) by (bit_vector);
        assert(0x80u8 | (u & 0x3F) as u8 != 0) by (bit_vector);
        let buf = [b1, b2, b3, b4];
        buf
    }
}

/// A buffer that holds the bytes of a character and zeroes after them
/// holds, before the first zero after its first byte, the bytes of the
/// character after the first.
proof fn lemma_encoded(encoded: Seq<u8>, buf: Seq<u8>)
    requires
        1 <= encoded.len() <= 4,
        buf == encoded + Seq::new((4 - encoded.len()) as nat, |i: int| 0u8),
        forall|i: int| 1 <= i < encoded.len() ==> buf[i] != 0,
    ensures
        before_zero(buf.skip(1)) == encoded.skip(1),
        buf[0] != 0 ==> before_zero(buf) == encoded,
{
    let tail = buf.skip(1);
    reveal_with_fuel(before_zero, 6);
}

/// Taking the first byte out of a buffer of four and putting a zero in at
/// the end leaves, before the first zero, what was there after the first
/// byte.
proof fn lemma_shift(buf: Seq<u8>)
    requires
        buf.len() == 4,
    ensures
        before_zero(seq![buf[1], buf[2], buf[3], 0u8]) == if buf[0] == 0 {
            before_zero(buf.skip(1))
        } else {
            before_zero(buf).skip(1)
        },
{
    let shifted = seq![buf[1], buf[2], buf[3], 0u8];
    let tail = buf.skip(1);
    reveal_with_fuel(before_zero, 6);
}


/// No unit is a surrogate, so that each unit is a character of its own.
pub open spec fn plain(units: Seq<u16>) -> bool {
    forall|i: int| 0 <= i < units.len() ==> !surrogate(#[trigger] units[i])
}

/// The characters of units of which none is a surrogate.
pub open spec fn chars_of(units: Seq<u16>) -> Seq<char> {
    Seq::new(units.len(), |i: int| (units[i] as u32) as char)
}

/// The encoding of characters with one more character is the encoding of
/// the characters and then that of the one.
proof fn lemma_encode_push(chars: Seq<char>, c: char)
    ensures
        vstd::utf8::encode_utf8(chars.push(c)) == vstd::utf8::encode_utf8(chars)
            + vstd::utf8::encode_scalar(c as u32),
    decreases chars.len(),
{
    let more = chars.push(c);
    if chars.len() == 0 {
        assert(more.drop_first() == Seq::<char>::empty());
        assert(vstd::utf8::encode_utf8(Seq::<char>::empty()) == Seq::<u8>::empty());
        assert(vstd::utf8::encode_utf8(more) == vstd::utf8::encode_scalar(c as u32)
            + Seq::<u8>::empty());
        assert(vstd::utf8::encode_scalar(c as u32) + Seq::<u8>::empty()
            == vstd::utf8::encode_scalar(c as u32));
        assert(Seq::<u8>::empty() + vstd::utf8::encode_scalar(c as u32)
            == vstd::utf8::encode_scalar(c as u32));
    } else {
        assert(more.drop_first() == chars.drop_first().push(c));
        assert(more[0] == chars[0]);
        lemma_encode_push(chars.drop_first(), c);
        let head = vstd::utf8::encode_scalar(chars[0] as u32);
        let rest = vstd::utf8::encode_utf8(chars.drop_first());
        let last = vstd::utf8::encode_scalar(c as u32);
        assert(head + (rest + last) == (head + rest) + last);
    }
}

impl<'a> Str16<'a> {
    /// Whether no unit of the string is a surrogate: the text forms and the
    /// comparisons must not be asked for where this is false.
    pub fn is_plain(&self) -> (ok: bool)
        ensures
            ok == plain(self@),
    {
        let mut i: usize = 0;
        while i < self.0.len()
            invariant
                i <= self.0@.len(),
                forall|j: int| 0 <= j < i ==> !surrogate(#[trigger] self.0@[j]),
            decreases self.0@.len() - i,
        {
            let cu = self.0[i];
            if HI_SURR_START <= cu && cu <= LO_SURR_END {
                return false;
            }
            i = i + 1;
        }
        true
    }

    /// The text of the string: its characters in the 8-bit encoding.
    pub fn display(&self) -> (text: Vec<u8>)
        requires
            plain(self@),
        ensures
            text@ == vstd::utf8::encode_utf8(chars_of(self@)),
    {
        let mut text: Vec<u8> = Vec::new();
        let mut i: usize = 0;
        assert(chars_of(self.0@.take(0)) == Seq::<char>::empty());
        while i < self.0.len()
            invariant
                i <= self.0@.len(),
                plain(self.0@),
                text@ == vstd::utf8::encode_utf8(chars_of(self.0@.take(i as int))),
            decreases self.0@.len() - i,
        {
            let cu = self.0[i];
            assert(!surrogate(self.0@[i as int]));
            let c = match char_from_u32(cu as u32) {
                Some(c) => c,
                None => {
                    assert(vstd::utf8::is_scalar(cu as u32));
                    return text;
                },
            };
            let buf = encode(c);
            let width: usize = if cu < 0x80 {
                1
            } else if cu < 0x800 {
                2
            } else {
                3
            };
            let ghost encoded = vstd::utf8::encode_scalar(c as u32);
            let ghost before = text@;
            assert(encoded.len() == width);
            text.push(buf[0]);
            if width >= 2 {
                text.push(buf[1]);
            }
            if width >= 3 {
                text.push(buf[2]);
            }
            proof {
                assert(text@ == before + encoded);
                vstd::utf8::char_u32_cast(c, cu as u32);
                let short = chars_of(self.0@.take(i as int));
                let long = chars_of(self.0@.take(i + 1));
                assert(long == short.push(c));
                lemma_encode_push(short, c);
            }
            i = i + 1;
        }
        assert(self.0@.take(i as int) == self.0@);
        text
    }

    /// Whether the string's text is these bytes.
    pub fn eq_bytes(&self, v: &[u8]) -> (same: bool)
        requires
            plain(self@),
        ensures
            same == (vstd::utf8::encode_utf8(chars_of(self@)) == v@),
    {
        let text = self.display();
        if text.len() != v.len() {
            return false;
        }
        let mut i: usize = 0;
        while i < text.len()
            invariant
                i <= text@.len(),
                text@.len() == v@.len(),
                text@ == vstd::utf8::encode_utf8(chars_of(self@)),
                forall|j: int| 0 <= j < i ==> text@[j] == v@[j],
            decreases text@.len() - i,
        {
            if text[i] != v[i] {
                assert(text@[i as int] != v@[i as int]);
                return false;
            }
            i = i + 1;
        }
        assert(text@ =~= v@);
        true
    }

    /// Whether the string's characters are those of `v`.
    pub fn eq_str(&self, v: &str) -> (same: bool)
        requires
            plain(self@),
        ensures
            same == (chars_of(self@) == v@),
    {
        proof {
            vstd::utf8::encode_utf8_decode_utf8(chars_of(self@));
            vstd::utf8::encode_utf8_decode_utf8(v@);
        }
        self.eq_bytes(v.as_bytes())
    }
}


/// How one unit that is no surrogate stands in the quoted form of a string:
/// a backslash and a letter for the backslash, the line feed, the carriage
/// return, the quote and the character zero; the character itself from the
/// space to `U+0127`; and `\u{..}` with the number in hexadecimal for any
/// other.
pub open spec fn escaped(cu: u16) -> Seq<u8> {
    if cu == 0x5C {
        seq![0x5Cu8, 0x5Cu8]
    } else if cu == 0x0A {
        seq![0x5Cu8, 0x6Eu8]
    } else if cu == 0x0D {
        seq![0x5Cu8, 0x72u8]
    } else if cu == 0x22 {
        seq![0x5Cu8, 0x22u8]
    } else if cu == 0 {
        seq![0x5Cu8, 0x30u8]
    } else if 0x20 <= cu <= 0x127 {
        vstd::utf8::encode_scalar(cu as u32)
    } else {
        seq![0x5Cu8, 0x75u8, 0x7Bu8] + crate::console::hex_digits(cu as nat) + seq![0x7Du8]
    }
}

/// The units of a string, each in its quoted form.
pub open spec fn escaped_all(units: Seq<u16>) -> Seq<u8>
    decreases units.len(),
{
    if units.len() == 0 {
        Seq::empty()
    } else {
        escaped_all(units.drop_last()) + escaped(units.last())
    }
}

/// The quoted form of a string: `w"`, the units in their quoted form, and
/// `"`.
pub open spec fn quoted(units: Seq<u16>) -> Seq<u8> {
    seq![0x77u8, 0x22u8] + escaped_all(units) + seq![0x22u8]
}

/// Writes the quoted form of one unit at the end of `out`.
fn push_escaped(out: &mut Vec<u8>, cu: u16)
    requires
        !surrogate(cu),
    ensures
        final(out)@ == old(out)@ + escaped(cu),
{
    if cu == 0x5C {
        out.push(0x5C);
        out.push(0x5C);
    } else if cu == 0x0A {
        out.push(0x5C);
        out.push(0x6E);
    } else if cu == 0x0D {
        out.push(0x5C);
        out.push(0x72);
    } else if cu == 0x22 {
        out.push(0x5C);
        out.push(0x22);
    } else if cu == 0 {
        out.push(0x5C);
        out.push(0x30);
    } else if 0x20 <= cu && cu <= 0x127 {
        let c = match char_from_u32(cu as u32) {
            Some(c) => c,
            None => {
                assert(vstd::utf8::is_scalar(cu as u32));
                return ;
            },
        };
        let buf = encode(c);
        out.push(buf[0]);
        if cu >= 0x80 {
            out.push(buf[1]);
        }
        assert(out@ == old(out)@ + vstd::utf8::encode_scalar(cu as u32));
    } else {
        out.push(0x5C);
        out.push(0x75);
        out.push(0x7B);
        let ghost start = out@;
        let hex = crate::console::puth(cu as u64);
        assert(hex@ == seq![0x30u8, 0x78u8] + crate::console::hex_digits(cu as nat));
        let mut i: usize = 2;
        while i < hex.len()
            invariant
                2 <= i <= hex@.len(),
                out@ == start + hex@.subrange(2, i as int),
            decreases hex@.len() - i,
        {
            out.push(hex[i]);
            assert(hex@.subrange(2, i + 1) == hex@.subrange(2, i as int).push(hex@[i as int]));
            i = i + 1;
        }
        assert(hex@.subrange(2, hex@.len() as int) == crate::console::hex_digits(cu as nat));
        out.push(0x7D);
        assert(out@ == old(out)@ + escaped(cu));
    }
}

impl<'a> Str16<'a> {
    /// The quoted form of the string.
    pub fn debug(&self) -> (text: Vec<u8>)
        requires
            plain(self@),
        ensures
            text@ == quoted(self@),
    {
        let mut text: Vec<u8> = Vec::new();
        text.push(0x77);
        text.push(0x22);
        let mut i: usize = 0;
        assert(escaped_all(self.0@.take(0)) == Seq::<u8>::empty());
        while i < self.0.len()
            invariant
                i <= self.0@.len(),
                plain(self.0@),
                text@ == seq![0x77u8, 0x22u8] + escaped_all(self.0@.take(i as int)),
            decreases self.0@.len() - i,
        {
            assert(!surrogate(self.0@[i as int]));
            push_escaped(&mut text, self.0[i]);
            proof {
                let long = self.0@.take(i + 1);
                assert(long.drop_last() == self.0@.take(i as int));
                assert(long.last() == self.0@[i as int]);
            }
            i = i + 1;
        }
        assert(self.0@.take(i as int) == self.0@);
        text.push(0x22);
        text
    }
}

} // verus!
