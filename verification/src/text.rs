//! Characters, strings and byte offsets.
//!
//! The lexer reads its input as a sequence of characters and reports
//! positions as byte offsets into the UTF-8 text, so this module decodes a
//! string once and keeps, beside the characters, the offset of each.
use vstd::prelude::*;
use vstd::string::*;
use vstd::utf8::*;

verus! {

/// `String::push`: the string afterwards is the string before with `c`
/// appended.
#[verifier::external_body]
pub(crate) fn push_char(s: &mut String, c: char)
    ensures
        final(s)@ == old(s)@.push(c),
{
    s.push(c)
}

/// The characters of `s`, in order.
pub fn chars_of(s: &str) -> (v: Vec<char>)
    ensures
        v@ == s@,
{
    let mut v: Vec<char> = Vec::new();
    for c in it: s.chars()
        invariant
            v@ == it.seq().take(it.index() as int),
    {
        v.push(c);
    }
    v
}

/// The string made of the characters `v[from..to)`.
pub fn string_of(v: &Vec<char>, from: usize, to: usize) -> (s: String)
    requires
        from <= to <= v.len(),
    ensures
        s@ == v@.subrange(from as int, to as int),
{
    let mut s = String::new();
    let mut i: usize = from;
    while i < to
        invariant
            from <= i <= to <= v.len(),
            s@ == v@.subrange(from as int, i as int),
        decreases to - i,
    {
        push_char(&mut s, v[i]);
        i += 1;
    }
    s
}

/// Whether two strings hold the same characters.
pub fn same_text(a: &str, b: &str) -> (r: bool)
    ensures
        r <==> a@ == b@,
{
    let x = chars_of(a);
    let y = chars_of(b);
    if x.len() != y.len() {
        return false;
    }
    let mut i: usize = 0;
    while i < x.len()
        invariant
            i <= x.len(),
            x.len() == y.len(),
            x@ == a@,
            y@ == b@,
            x@.take(i as int) == y@.take(i as int),
        decreases x.len() - i,
    {
        if x[i] != y[i] {
            return false;
        }
        assert(x@.take(i + 1) == x@.take(i as int).push(x@[i as int]));
        assert(y@.take(i + 1) == y@.take(i as int).push(y@[i as int]));
        i += 1;
    }
    assert(x@ == x@.take(x.len() as int));
    assert(y@ == y@.take(y.len() as int));
    true
}

/// The number of bytes that `c` takes in UTF-8.
pub open spec fn spec_utf8_width(c: char) -> nat {
    encode_scalar(c as u32).len()
}

/// The number of bytes that `c` takes in UTF-8: one to four.
pub fn utf8_width(c: char) -> (w: usize)
    ensures
        w == spec_utf8_width(c),
        1 <= w <= 4,
{
    broadcast use char_is_scalar;

    let v: u32 = c as u32;
    if v <= 0x7F {
        1
    } else if v <= 0x7FF {
        2
    } else if v <= 0xFFFF {
        3
    } else {
        4
    }
}

/// The byte offset, in the UTF-8 encoding of `s`, at which character `i`
/// starts; for `i == s.len()`, the length of the encoding.
pub open spec fn byte_offset(s: Seq<char>, i: int) -> nat {
    encode_utf8(s.take(i)).len()
}

/// Encoding a sequence with one more character appends that character's
/// bytes.
pub proof fn lemma_encode_push(a: Seq<char>, c: char)
    ensures
        encode_utf8(a.push(c)) == encode_utf8(a) + encode_scalar(c as u32),
    decreases a.len(),
{
    if a.len() == 0 {
        assert(a.push(c).drop_first() == Seq::<char>::empty());
        assert(encode_utf8(a.push(c)) == encode_scalar(c as u32) + encode_utf8(
            Seq::<char>::empty(),
        ));
        assert(encode_utf8(a.push(c)) =~= encode_utf8(a) + encode_scalar(c as u32));
    } else {
        lemma_encode_push(a.drop_first(), c);
        assert(a.push(c).drop_first() == a.drop_first().push(c));
        assert(encode_utf8(a.push(c)) =~= encode_utf8(a) + encode_scalar(c as u32));
    }
}

/// Each character moves the offset on by its width.
pub proof fn lemma_byte_offset_step(s: Seq<char>, i: int)
    requires
        0 <= i < s.len(),
    ensures
        byte_offset(s, i + 1) == byte_offset(s, i) + spec_utf8_width(s[i]),
        byte_offset(s, 0) == 0,
{
    assert(s.take(i + 1) == s.take(i).push(s[i]));
    lemma_encode_push(s.take(i), s[i]);
    assert(s.take(0) == Seq::<char>::empty());
}

/// Offsets grow with the position.
pub proof fn lemma_byte_offset_monotone(s: Seq<char>, i: int, j: int)
    requires
        0 <= i <= j <= s.len(),
    ensures
        byte_offset(s, i) <= byte_offset(s, j),
        byte_offset(s, j) - byte_offset(s, i) >= j - i,
    decreases j - i,
{
    if i < j {
        lemma_byte_offset_monotone(s, i, j - 1);
        lemma_byte_offset_step(s, j - 1);
        broadcast use char_is_scalar;

    }
}

/// A decoded text: its characters, and the byte offset of each.
pub struct Source {
    pub chars: Vec<char>,
    pub offsets: Vec<usize>,
}

impl Source {
    /// `offsets` has one entry per character and one for the end, each the
    /// byte offset of its position.
    pub open spec fn wf(&self) -> bool {
        &&& self.offsets.len() == self.chars.len() + 1
        &&& forall|i: int|
            0 <= i <= self.chars.len() ==> #[trigger] self.offsets[i] == byte_offset(
                self.chars@,
                i,
            )
    }

    /// Decodes `text`.
    pub fn new(text: &str) -> (src: Source)
        ensures
            src.wf(),
            src.chars@ == text@,
    {
        let chars = chars_of(text);
        let total = text.as_bytes().len();
        let ghost s = chars@;
        assert(s.take(s.len() as int) == s);
        assert(byte_offset(s, s.len() as int) == total);
        let mut offsets: Vec<usize> = Vec::new();
        let mut acc: usize = 0;
        let mut i: usize = 0;
        proof {
            assert(s.take(0) == Seq::<char>::empty());
        }
        while i < chars.len()
            invariant
                i <= chars.len(),
                s == chars@,
                byte_offset(s, s.len() as int) == total,
                acc == byte_offset(s, i as int),
                offsets.len() == i,
                forall|k: int| 0 <= k < i ==> #[trigger] offsets[k] == byte_offset(s, k),
            decreases chars.len() - i,
        {
            offsets.push(acc);
            proof {
                lemma_byte_offset_step(s, i as int);
                lemma_byte_offset_monotone(s, i + 1, s.len() as int);
            }
            acc = acc + utf8_width(chars[i]);
            i += 1;
        }
        offsets.push(acc);
        Source { chars, offsets }
    }
}

/// The encoding of two texts, one after the other, is the encoding of
/// the first followed by that of the second.
pub proof fn lemma_encode_concat(x: Seq<char>, y: Seq<char>)
    ensures
        encode_utf8(x + y) == encode_utf8(x) + encode_utf8(y),
    decreases y.len(),
{
    if y.len() == 0 {
        assert(x + y =~= x);
        assert(encode_utf8(y) =~= Seq::<u8>::empty());
        assert(encode_utf8(x) + encode_utf8(y) =~= encode_utf8(x));
    } else {
        let front = y.drop_last();
        let c = y.last();
        lemma_encode_concat(x, front);
        assert(y =~= front.push(c));
        assert(x + y =~= (x + front).push(c));
        lemma_encode_push(x + front, c);
        lemma_encode_push(front, c);
        assert(encode_utf8(x + y) =~= encode_utf8(x) + encode_utf8(y));
    }
}

/// The bytes between the offsets of two positions are the encoding of the
/// characters between the positions.
pub proof fn lemma_bytes_of_range(s: Seq<char>, a: int, b: int)
    requires
        0 <= a <= b <= s.len(),
    ensures
        byte_offset(s, a) <= byte_offset(s, b) <= encode_utf8(s).len(),
        byte_offset(s, b) - byte_offset(s, a) == encode_utf8(s.subrange(a, b)).len(),
        encode_utf8(s).subrange(byte_offset(s, a) as int, byte_offset(s, b) as int) == encode_utf8(
            s.subrange(a, b),
        ),
        byte_offset(s.subrange(a, b), b - a) == encode_utf8(s.subrange(a, b)).len(),
{
    let head = s.take(a);
    let mid = s.subrange(a, b);
    let tail = s.skip(b);
    assert(s.take(b) =~= head + mid);
    assert(s =~= s.take(b) + tail);
    lemma_encode_concat(head, mid);
    lemma_encode_concat(s.take(b), tail);
    assert(encode_utf8(s).subrange(byte_offset(s, a) as int, byte_offset(s, b) as int)
        =~= encode_utf8(mid));
    assert(mid.take(b - a) =~= mid);
}

/// The characters that count as white space: those with the Unicode
/// property White_Space.
pub open spec fn white_space(c: char) -> bool {
    let v = c as u32;
    (0x09 <= v && v <= 0x0D) || v == 0x20 || v == 0x85 || v == 0xA0 || v == 0x1680 || (0x2000
        <= v && v <= 0x200A) || v == 0x2028 || v == 0x2029 || v == 0x202F || v == 0x205F || v
        == 0x3000
}

/// Whether `c` is white space.
pub fn is_white_space(c: char) -> (r: bool)
    ensures
        r == white_space(c),
{
    let v: u32 = c as u32;
    (0x09 <= v && v <= 0x0D) || v == 0x20 || v == 0x85 || v == 0xA0 || v == 0x1680 || (0x2000
        <= v && v <= 0x200A) || v == 0x2028 || v == 0x2029 || v == 0x202F || v == 0x205F || v
        == 0x3000
}

} // verus!
