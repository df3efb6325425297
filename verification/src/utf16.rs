//! UTF-16BE, the second encoding of PDF text strings.
//!
//! Encoding is total on sequences of characters. Decoding is total on byte
//! sequences: it reads big-endian 16-bit units, joins surrogate pairs, and
//! answers each malformed region (an unpaired surrogate, a truncated pair, a
//! stray last byte) with a single replacement character.

use vstd::prelude::*;

verus! {

/// U+FFFD, which stands in the decoded text for input that has no meaning.
pub const REPLACEMENT_CHARACTER: char = '\u{FFFD}';

/// The 16-bit unit made of a high and a low byte.
pub open spec fn unit_of(hi: u8, lo: u8) -> int {
    hi as int * 256 + lo as int
}

/// The two bytes of a 16-bit unit, high byte first.
pub open spec fn unit_bytes(unit: int) -> Seq<u8> {
    seq![(unit / 256) as u8, (unit % 256) as u8]
}

pub open spec fn is_high_surrogate(unit: int) -> bool {
    0xD800 <= unit <= 0xDBFF
}

pub open spec fn is_low_surrogate(unit: int) -> bool {
    0xDC00 <= unit <= 0xDFFF
}

/// The first unit of the surrogate pair of a character above U+FFFF:
/// `0xD800 + (v >> 10)` for `v = c - 0x10000`.
pub open spec fn high_surrogate_of(c: char) -> int {
    0xD800 + (c as int - 0x10000) / 0x400
}

/// The second unit of the surrogate pair of a character above U+FFFF:
/// `0xDC00 + (v & 0x3FF)` for `v = c - 0x10000`.
pub open spec fn low_surrogate_of(c: char) -> int {
    0xDC00 + (c as int - 0x10000) % 0x400
}

/// The character that a surrogate pair stands for.
pub open spec fn combine_surrogates(high: int, low: int) -> char {
    (0x10000 + (high - 0xD800) * 0x400 + (low - 0xDC00)) as char
}

/// The UTF-16BE bytes of one character: one unit up to U+FFFF, a surrogate
/// pair above.
pub open spec fn utf16be_char(c: char) -> Seq<u8> {
    if c as int <= 0xFFFF {
        unit_bytes(c as int)
    } else {
        unit_bytes(high_surrogate_of(c)) + unit_bytes(low_surrogate_of(c))
    }
}

/// The UTF-16BE bytes of a text, without a byte-order marker.
pub open spec fn utf16be_encode(s: Seq<char>) -> Seq<u8>
    decreases s.len(),
{
    if s.len() == 0 {
        Seq::empty()
    } else {
        utf16be_char(s[0]) + utf16be_encode(s.drop_first())
    }
}

/// Encoding distributes over concatenation.
pub proof fn lemma_encode_concat(a: Seq<char>, b: Seq<char>)
    ensures
        utf16be_encode(a + b) == utf16be_encode(a) + utf16be_encode(b),
    decreases a.len(),
{
    if a.len() > 0 {
        lemma_encode_concat(a.drop_first(), b);
        assert((a + b).drop_first() =~= a.drop_first() + b);
    }
}

/// Encoding a text with one more character appends that character's bytes.
pub proof fn lemma_encode_push(s: Seq<char>, c: char)
    ensures
        utf16be_encode(s.push(c)) == utf16be_encode(s) + utf16be_char(c),
{
    let one = seq![c];
    assert(s.push(c) =~= s + one);
    lemma_encode_concat(s, one);
    assert(utf16be_encode(one) =~= utf16be_char(c)) by {
        reveal_with_fuel(utf16be_encode, 2);
    }
}

/// Appends the two bytes of a 16-bit unit, high byte first.
fn push_unit(out: &mut Vec<u8>, unit: u32)
    requires
        unit <= 0xFFFF,
    ensures
        final(out)@ == old(out)@ + unit_bytes(unit as int),
{
    let hi: u8 = (unit >> 8) as u8;
    let lo: u8 = (unit & 0xFF) as u8;
    assert(unit >> 8 == unit / 256 && unit & 0xFF == unit % 256) by (bit_vector);
    out.push(hi);
    out.push(lo);
}

/// Appends the UTF-16BE bytes of one character.
pub fn push_utf16be_char(out: &mut Vec<u8>, ch: char)
    ensures
        final(out)@ == old(out)@ + utf16be_char(ch),
{
    let code_point: u32 = ch as u32;
    if code_point <= 0xFFFF {
        push_unit(out, code_point);
    } else {
        let v: u32 = code_point - 0x10000;
        assert(v >> 10 == v / 0x400 && v & 0x3FF == v % 0x400 && (v >> 10) <= 0x3FF) by (bit_vector)
            requires
                v <= 0xFFFFF,
        ;
        let high: u32 = 0xD800 + (v >> 10);
        let low: u32 = 0xDC00 + (v & 0x3FF);
        push_unit(out, high);
        push_unit(out, low);
    }
}

/// Encodes a text as UTF-16BE behind the byte-order marker `FE FF`.
pub fn encode_utf16be_with_bom(s: &str) -> (r: Vec<u8>)
    ensures
        r@ == seq![0xFEu8, 0xFFu8] + utf16be_encode(s@),
{
    let mut result: Vec<u8> = Vec::new();
    result.push(0xFE);
    result.push(0xFF);
    for ch in it: s.chars()
        invariant
            it.seq() == s@,
            result@ == seq![0xFEu8, 0xFFu8] + utf16be_encode(s@.take(it.index())),
    {
        let ghost before = s@.take(it.index());
        push_utf16be_char(&mut result, ch);
        proof {
            lemma_encode_push(before, ch);
            assert(s@.take(it.index() + 1) =~= before.push(ch));
        }
    }
    assert(s@.take(s@.len() as int) =~= s@);
    result
}

/// The state of the decoder between two steps.
///
/// `AfterReplacement` means that the input just before the current position
/// was malformed and has already been answered with a replacement character,
/// so that a malformed region is answered once however long it is.
#[derive(Clone, Copy, Debug, PartialEq, Eq)]
pub enum DecodeState {
    Normal,
    AfterReplacement,
}

/// One step of the decoder: what it appends to the text, how many bytes it
/// consumes, and the state it leaves.
#[derive(Clone, Copy, Debug, PartialEq, Eq)]
pub struct Transition {
    pub emit: Option<char>,
    pub consumed: usize,
    pub next: DecodeState,
}

/// What a malformed unit appends: a replacement character, unless the region
/// it belongs to already has one.
pub open spec fn replacement_for(state: DecodeState) -> Option<char> {
    match state {
        DecodeState::Normal => Some(REPLACEMENT_CHARACTER),
        DecodeState::AfterReplacement => None,
    }
}

/// Whether the unread input `rest` begins with a well-formed character: a
/// surrogate pair, or a unit that is no surrogate.
pub open spec fn starts_well_formed(rest: Seq<u8>) -> bool {
    rest.len() >= 2 && {
        let unit = unit_of(rest[0], rest[1]);
        if is_high_surrogate(unit) {
            rest.len() >= 4 && is_low_surrogate(unit_of(rest[2], rest[3]))
        } else {
            !is_low_surrogate(unit)
        }
    }
}

/// The step that the decoder takes in `state` on the unread input `rest`,
/// which is not empty.
///
/// * A high surrogate followed by a low surrogate is one character of four
///   bytes, and leaves `Normal`.
/// * A unit that is no surrogate is one character of two bytes, and leaves
///   `Normal`.
/// * A high surrogate without a low surrogate behind it, and a low surrogate
///   with no high surrogate before it, are malformed: two bytes are consumed,
///   so that the unit behind a lone high surrogate is read again as the start
///   of a character.
/// * A single last byte is malformed and is consumed.
///
/// A malformed step appends `replacement_for(state)` and leaves
/// `AfterReplacement`.
pub open spec fn transition(rest: Seq<u8>, state: DecodeState) -> Transition
    recommends
        rest.len() > 0,
{
    if !starts_well_formed(rest) {
        Transition {
            emit: replacement_for(state),
            consumed: if rest.len() == 1 { 1 } else { 2 },
            next: DecodeState::AfterReplacement,
        }
    } else {
        let unit = unit_of(rest[0], rest[1]);
        if is_high_surrogate(unit) {
            Transition {
                emit: Some(combine_surrogates(unit, unit_of(rest[2], rest[3]))),
                consumed: 4,
                next: DecodeState::Normal,
            }
        } else {
            Transition { emit: Some(unit as char), consumed: 2, next: DecodeState::Normal }
        }
    }
}

/// The characters that a step appends: none or one.
pub open spec fn emitted(t: Transition) -> Seq<char> {
    match t.emit {
        Some(c) => seq![c],
        None => Seq::empty(),
    }
}

/// The text that the decoder produces from the unread input `rest` when it is
/// in `state`.
pub open spec fn decode_from(rest: Seq<u8>, state: DecodeState) -> Seq<char>
    decreases rest.len(),
{
    if rest.len() == 0 {
        Seq::empty()
    } else {
        let t = transition(rest, state);
        emitted(t) + decode_from(rest.skip(t.consumed as int), t.next)
    }
}

/// The text that UTF-16BE bytes without a byte-order marker decode to.
pub open spec fn utf16be_decode(bytes: Seq<u8>) -> Seq<char> {
    decode_from(bytes, DecodeState::Normal)
}

/// Reads the 16-bit unit at `pos`.
fn read_unit(bytes: &[u8], pos: usize) -> (unit: u16)
    requires
        pos + 1 < bytes.len(),
    ensures
        unit as int == unit_of(bytes[pos as int], bytes[pos + 1]),
{
    let hi: u16 = bytes[pos] as u16;
    let lo: u16 = bytes[pos + 1] as u16;
    assert((hi << 8) | lo == hi * 256 + lo) by (bit_vector)
        requires
            hi <= 0xFF,
            lo <= 0xFF,
    ;
    (hi << 8) | lo
}

/// Takes one step of the decoder at position `pos` of `bytes`.
pub fn decode_step(bytes: &[u8], pos: usize, state: DecodeState) -> (t: Transition)
    requires
        pos < bytes.len(),
    ensures
        t == transition(bytes@.skip(pos as int), state),
        1 <= t.consumed <= bytes.len() - pos,
{
    let malformed = Transition {
        emit: match state {
            DecodeState::Normal => Some(REPLACEMENT_CHARACTER),
            DecodeState::AfterReplacement => None,
        },
        consumed: if bytes.len() - pos == 1 { 1 } else { 2 },
        next: DecodeState::AfterReplacement,
    };
    if bytes.len() - pos < 2 {
        return malformed;
    }
    let unit = read_unit(bytes, pos);
    if 0xD800 <= unit && unit <= 0xDBFF {
        if bytes.len() - pos < 4 {
            return malformed;
        }
        let low = read_unit(bytes, pos + 2);
        if !(0xDC00 <= low && low <= 0xDFFF) {
            return malformed;
        }
        let high_bits: u32 = (unit - 0xD800) as u32;
        let low_bits: u32 = (low - 0xDC00) as u32;
        assert(high_bits << 10 == high_bits * 0x400) by (bit_vector)
            requires
                high_bits <= 0x3FF,
        ;
        let code_point: u32 = 0x10000 + (high_bits << 10) + low_bits;
        match char::from_u32(code_point) {
            Some(ch) => Transition { emit: Some(ch), consumed: 4, next: DecodeState::Normal },
            None => malformed,
        }
    } else if 0xDC00 <= unit && unit <= 0xDFFF {
        malformed
    } else {
        match char::from_u32(unit as u32) {
            Some(ch) => Transition { emit: Some(ch), consumed: 2, next: DecodeState::Normal },
            None => malformed,
        }
    }
}

/// Decodes UTF-16BE bytes without a byte-order marker, and says whether the
/// text holds a replacement character.
pub fn decode_utf16be_marking(bytes: &[u8]) -> (r: (String, bool))
    ensures
        r.0@ == utf16be_decode(bytes@),
        r.1 == utf16be_decode(bytes@).contains(REPLACEMENT_CHARACTER),
{
    let mut result = String::new();
    let mut replaced = false;
    let mut state = DecodeState::Normal;
    let mut i: usize = 0;
    assert(bytes@.skip(0) =~= bytes@);
    while i < bytes.len()
        invariant
            i <= bytes.len(),
            result@ + decode_from(bytes@.skip(i as int), state) == utf16be_decode(bytes@),
            replaced == result@.contains(REPLACEMENT_CHARACTER),
        decreases bytes.len() - i,
    {
        let ghost rest = bytes@.skip(i as int);
        let ghost before = result@;
        let t = decode_step(bytes, i, state);
        if let Some(ch) = t.emit {
            result.push(ch);
            if ch == REPLACEMENT_CHARACTER {
                replaced = true;
            }
            proof {
                if before.contains(REPLACEMENT_CHARACTER) {
                    let k = choose|k: int|
                        0 <= k < before.len() && before[k] == REPLACEMENT_CHARACTER;
                    assert(result@[k] == REPLACEMENT_CHARACTER);
                }
                if ch == REPLACEMENT_CHARACTER {
                    assert(result@[before.len() as int] == REPLACEMENT_CHARACTER);
                }
            }
        }
        proof {
            assert(rest.skip(t.consumed as int) =~= bytes@.skip(i + t.consumed));
        }
        i = i + t.consumed;
        state = t.next;
    }
    (result, replaced)
}

/// Decodes UTF-16BE bytes without a byte-order marker. Every byte sequence
/// decodes; each malformed region becomes one replacement character.
pub fn decode_utf16be(bytes: &[u8]) -> (r: String)
    ensures
        r@ == utf16be_decode(bytes@),
{
    decode_utf16be_marking(bytes).0
}

/// Whether `bytes` is the UTF-16BE encoding of some text: a sequence of
/// well-formed characters with nothing left over.
pub open spec fn well_formed_utf16be(bytes: Seq<u8>) -> bool
    decreases bytes.len(),
{
    bytes.len() == 0 || (starts_well_formed(bytes) && well_formed_utf16be(
        bytes.skip(transition(bytes, DecodeState::Normal).consumed as int),
    ))
}

/// In any state, the decoder reads the bytes of a character as that
/// character, and is in `Normal` behind them.
pub proof fn lemma_decode_char(c: char, rest: Seq<u8>, state: DecodeState)
    ensures
        starts_well_formed(utf16be_char(c) + rest),
        transition(utf16be_char(c) + rest, state) == (Transition {
            emit: Some(c),
            consumed: utf16be_char(c).len() as usize,
            next: DecodeState::Normal,
        }),
        decode_from(utf16be_char(c) + rest, state) == seq![c] + decode_from(
            rest,
            DecodeState::Normal,
        ),
{
    let bytes = utf16be_char(c) + rest;
    assert(bytes.skip(utf16be_char(c).len() as int) =~= rest);
}

/// Decoding the encoding of a text gives the text back.
pub proof fn lemma_decode_encode(s: Seq<char>)
    ensures
        utf16be_decode(utf16be_encode(s)) == s,
    decreases s.len(),
{
    if s.len() > 0 {
        lemma_decode_char(s[0], utf16be_encode(s.drop_first()), DecodeState::Normal);
        lemma_decode_encode(s.drop_first());
    }
}

/// The encoding of a text is well-formed.
pub proof fn lemma_encode_well_formed(s: Seq<char>)
    ensures
        well_formed_utf16be(utf16be_encode(s)),
    decreases s.len(),
{
    if s.len() > 0 {
        let rest = utf16be_encode(s.drop_first());
        lemma_decode_char(s[0], rest, DecodeState::Normal);
        lemma_encode_well_formed(s.drop_first());
        assert((utf16be_char(s[0]) + rest).skip(utf16be_char(s[0]).len() as int) =~= rest);
    }
}

/// A unit is rebuilt from its two bytes.
proof fn lemma_unit_bytes(hi: u8, lo: u8)
    ensures
        unit_bytes(unit_of(hi, lo)) == seq![hi, lo],
{
}

/// A surrogate pair is the pair of the character it stands for.
proof fn lemma_surrogates_of_pair(high: int, low: int)
    requires
        is_high_surrogate(high),
        is_low_surrogate(low),
    ensures
        combine_surrogates(high, low) as int > 0xFFFF,
        high_surrogate_of(combine_surrogates(high, low)) == high,
        low_surrogate_of(combine_surrogates(high, low)) == low,
{
}

/// A well-formed step consumes exactly the bytes of the character it emits.
proof fn lemma_step_consumes_char(bytes: Seq<u8>)
    requires
        starts_well_formed(bytes),
    ensures
        ({
            let t = transition(bytes, DecodeState::Normal);
            &&& t.emit is Some
            &&& t.next == DecodeState::Normal
            &&& t.consumed <= bytes.len()
            &&& utf16be_char(t.emit->0) == bytes.take(t.consumed as int)
        }),
{
    let unit = unit_of(bytes[0], bytes[1]);
    lemma_unit_bytes(bytes[0], bytes[1]);
    if is_high_surrogate(unit) {
        let low = unit_of(bytes[2], bytes[3]);
        lemma_unit_bytes(bytes[2], bytes[3]);
        lemma_surrogates_of_pair(unit, low);
    }
}

/// Well-formed bytes are the encoding of the text they decode to, so that
/// decoding loses nothing of them.
pub proof fn lemma_encode_decode(bytes: Seq<u8>)
    requires
        well_formed_utf16be(bytes),
    ensures
        utf16be_encode(utf16be_decode(bytes)) == bytes,
    decreases bytes.len(),
{
    if bytes.len() > 0 {
        let t = transition(bytes, DecodeState::Normal);
        let c = t.emit->0;
        let rest = bytes.skip(t.consumed as int);
        let text = decode_from(rest, DecodeState::Normal);
        lemma_step_consumes_char(bytes);
        lemma_encode_decode(rest);
        assert((seq![c] + text).drop_first() =~= text);
    }
}

/// Malformed input never decodes silently: the text it decodes to holds a
/// replacement character.
pub proof fn lemma_malformed_is_marked(bytes: Seq<u8>)
    requires
        !well_formed_utf16be(bytes),
    ensures
        utf16be_decode(bytes).contains(REPLACEMENT_CHARACTER),
    decreases bytes.len(),
{
    let t = transition(bytes, DecodeState::Normal);
    let tail = decode_from(bytes.skip(t.consumed as int), t.next);
    let text = emitted(t) + tail;
    if !starts_well_formed(bytes) {
        assert(text[0] == REPLACEMENT_CHARACTER);
    } else {
        lemma_malformed_is_marked(bytes.skip(t.consumed as int));
        let i = choose|i: int| 0 <= i < tail.len() && tail[i] == REPLACEMENT_CHARACTER;
        assert(text[i + 1] == REPLACEMENT_CHARACTER);
    }
}

/// A high surrogate with fewer than two bytes behind it ends the text: it is
/// answered as a malformed unit, and the byte behind it, where there is one,
/// adds nothing. A single last byte is answered in the same way.
pub proof fn lemma_truncated_end(rest: Seq<u8>, state: DecodeState)
    requires
        rest.len() == 1 || (2 <= rest.len() <= 3 && is_high_surrogate(unit_of(rest[0], rest[1]))),
    ensures
        decode_from(rest, state) == match replacement_for(state) {
            Some(c) => seq![c],
            None => Seq::<char>::empty(),
        },
{
    reveal_with_fuel(decode_from, 3);
    if rest.len() == 3 {
        assert(rest.skip(2).len() == 1);
    }
}

/// Whether the first `len` bytes of `rest` are a malformed region: the
/// decoder gets through exactly these bytes by malformed steps alone.
pub open spec fn is_malformed_region(rest: Seq<u8>, len: nat) -> bool
    decreases len,
{
    len == 0 || (rest.len() > 0 && !starts_well_formed(rest) && {
        let consumed = transition(rest, DecodeState::Normal).consumed;
        consumed <= len && is_malformed_region(rest.skip(consumed as int), (len - consumed) as nat)
    })
}

/// Behind a malformed region the decoder has appended what the first step of
/// the region appended, and nothing more.
proof fn lemma_region_from(rest: Seq<u8>, len: nat, state: DecodeState)
    requires
        len > 0,
        is_malformed_region(rest, len),
    ensures
        len <= rest.len(),
        decode_from(rest, state) == emitted(transition(rest, state)) + decode_from(
            rest.skip(len as int),
            DecodeState::AfterReplacement,
        ),
        transition(rest, state).emit == replacement_for(state),
    decreases len,
{
    let t = transition(rest, state);
    let after = rest.skip(t.consumed as int);
    if t.consumed < len {
        lemma_region_from(after, (len - t.consumed) as nat, DecodeState::AfterReplacement);
        assert(after.skip(len - t.consumed) =~= rest.skip(len as int));
    }
}

/// What the decoder makes of input that is empty or begins with a
/// well-formed character does not depend on its state.
pub proof fn lemma_state_is_forgotten(rest: Seq<u8>, state: DecodeState)
    requires
        rest.len() == 0 || starts_well_formed(rest),
    ensures
        decode_from(rest, state) == utf16be_decode(rest),
{
}

/// A malformed region is answered once, however long it is: where it ends
/// the input or a well-formed character follows it, it decodes to a single
/// replacement character, and what follows decodes as if nothing had been
/// wrong.
pub proof fn lemma_region_is_marked_once(bytes: Seq<u8>, len: nat)
    requires
        len > 0,
        is_malformed_region(bytes, len),
        bytes.len() == len || starts_well_formed(bytes.skip(len as int)),
    ensures
        utf16be_decode(bytes) == seq![REPLACEMENT_CHARACTER] + utf16be_decode(
            bytes.skip(len as int),
        ),
{
    lemma_region_from(bytes, len, DecodeState::Normal);
    lemma_state_is_forgotten(bytes.skip(len as int), DecodeState::AfterReplacement);
}

} // verus!
