//! The password input of the lock.
//!
//! The entered characters are kept only as their UTF-8 bytes, in zeroizing
//! memory. Callers learn the number of characters, never the text.

use vstd::prelude::*;
use vstd::utf8::*;

use crate::secret::{
    new_secret, secret_as_slice, secret_byte, secret_bytes, secret_len, secret_push, secret_wipe,
    secret_wipe_from, SecretBytes,
};

verus! {

broadcast use vstd::seq_lib::group_seq_properties;

/// A Unicode control character (general category Cc): U+0000 to U+001F and
/// U+007F to U+009F.
pub open spec fn is_control_char(c: char) -> bool {
    (c as u32) <= 0x1f || (0x7f <= (c as u32) && (c as u32) <= 0x9f)
}

/// The characters of `text` that are not control characters, in order.
pub open spec fn printable(text: Seq<char>) -> Seq<char>
    decreases text.len(),
{
    if text.len() == 0 {
        Seq::empty()
    } else if is_control_char(text.last()) {
        printable(text.drop_last())
    } else {
        printable(text.drop_last()).push(text.last())
    }
}

/// The input after typing `text` into `current` with a limit of `max` characters:
/// the printable characters of `text` are appended until the limit is reached.
pub open spec fn accept_text(current: Seq<char>, text: Seq<char>, max: nat) -> Seq<char> {
    let room = max - current.len();
    if printable(text).len() <= room {
        current + printable(text)
    } else {
        current + printable(text).take(room)
    }
}

/// Holds the current password input without exposing its text to callers.
pub struct InputState {
    bytes: SecretBytes,
    character_count: usize,
    max_characters: usize,
    characters: Ghost<Seq<char>>,
}

/// A password handed over to authentication; its bytes are zeroized on drop.
pub struct PasswordAttempt {
    bytes: SecretBytes,
}

impl View for InputState {
    type V = Seq<char>;

    /// The entered characters.
    closed spec fn view(&self) -> Seq<char> {
        self.characters@
    }
}

impl View for PasswordAttempt {
    type V = Seq<u8>;

    /// The submitted bytes.
    closed spec fn view(&self) -> Seq<u8> {
        secret_bytes(self.bytes)
    }
}

impl InputState {
    /// The most characters this input accepts.
    pub closed spec fn max_characters(&self) -> nat {
        self.max_characters as nat
    }

    /// The stored bytes are the UTF-8 encoding of the entered characters, which
    /// contain no control character and respect the limit.
    pub closed spec fn well_formed(&self) -> bool {
        &&& secret_bytes(self.bytes) == encode_utf8(self.characters@)
        &&& self.character_count == self.characters@.len()
        &&& self.characters@.len() <= self.max_characters
        &&& forall|i: int|
            0 <= i < self.characters@.len() ==> !is_control_char(#[trigger] self.characters@[i])
    }

    pub fn new(max_characters: usize) -> (input: Self)
        ensures
            input.well_formed(),
            input@ == Seq::<char>::empty(),
            input.max_characters() == max_characters,
    {
        InputState {
            bytes: new_secret(),
            character_count: 0,
            max_characters,
            characters: Ghost(Seq::empty()),
        }
    }

    /// Adds printable Unicode text while respecting the character limit.
    pub fn push_text(&mut self, text: &str)
        requires
            old(self).well_formed(),
            4 * (old(self)@.len() + text@.len()) < isize::MAX,
        ensures
            final(self).well_formed(),
            final(self).max_characters() == old(self).max_characters(),
            final(self)@ == accept_text(old(self)@, text@, old(self).max_characters()),
    {
        let length = text.unicode_len();
        let ghost start = self.characters@;
        let mut index: usize = 0;
        proof {
            assert(text@.take(0) =~= Seq::<char>::empty());
        }
        while index < length
            invariant_except_break
                self.well_formed(),
                self.max_characters == old(self).max_characters,
                index <= length,
                length == text@.len(),
                self.characters@ == start + printable(text@.take(index as int)),
                start == old(self)@,
                4 * (start.len() + text@.len()) < isize::MAX,
            ensures
                self.well_formed(),
                self.max_characters == old(self).max_characters,
                self.characters@ == accept_text(start, text@, self.max_characters as nat),
            decreases length - index,
        {
            let character = text.get_char(index);
            proof {
                assert(text@.take(index + 1).drop_last() =~= text@.take(index as int));
                assert(text@.take(index + 1).last() == character);
                lemma_printable_len(text@.take(index as int));
                lemma_printable_len(text@);
                lemma_printable_prefix(text@, index as int);
            }
            if !is_control(character) {
                if self.character_count == self.max_characters {
                    proof {
                        lemma_printable_prefix(text@, index as int);
                    }
                    break;
                }
                let ghost before = self.characters@;
                proof {
                    lemma_encode_utf8_push(before, character);
                    lemma_encode_utf8_len_bound(before);
                }
                push_encoded(&mut self.bytes, character);
                self.character_count = self.character_count + 1;
                self.characters = Ghost(before.push(character));
            }
            index = index + 1;
            proof {
                if index == length {
                    assert(text@.take(index as int) =~= text@);
                }
            }
        }
        proof {
            if index == length {
                assert(text@.take(index as int) =~= text@);
            }
        }
    }

    /// Removes the most recently entered Unicode scalar value.
    pub fn backspace(&mut self)
        requires
            old(self).well_formed(),
        ensures
            final(self).well_formed(),
            final(self).max_characters() == old(self).max_characters(),
            final(self)@ == if old(self)@.len() == 0 {
                old(self)@
            } else {
                old(self)@.drop_last()
            },
    {
        let length = secret_len(&self.bytes);
        let ghost chars = self.characters@;
        let ghost boundary: int = if chars.len() > 0 {
            encode_utf8(chars.drop_last()).len() as int
        } else {
            0
        };
        proof {
            if chars.len() > 0 {
                lemma_encode_utf8_push(chars.drop_last(), chars.last());
                assert(chars.drop_last().push(chars.last()) =~= chars);
                lemma_scalar_bytes(chars.last());
                let bytes = secret_bytes(self.bytes);
                let tail = encode_scalar(chars.last() as u32);
                assert(bytes[boundary] == tail[0]);
                assert forall|j: int| boundary < j < bytes.len() implies is_continuation_byte(
                    #[trigger] bytes[j],
                ) by {
                    assert(bytes[j] == tail[j - boundary]);
                }
            } else {
                assert(encode_utf8(chars) =~= Seq::<u8>::empty());
            }
        }
        let mut position: usize = length;
        while position > 0 && (secret_byte(&self.bytes, position - 1) & 0xC0) == 0x80
            invariant
                position <= length,
                length == secret_bytes(self.bytes).len(),
                forall|j: int|
                    position <= j < length ==> is_continuation_byte(
                        #[trigger] secret_bytes(self.bytes)[j],
                    ),
            decreases position,
        {
            proof {
                let byte = secret_bytes(self.bytes)[position - 1];
                assert((byte & 0xC0) == 0x80 ==> 0x80 <= byte <= 0xbf) by (bit_vector);
            }
            position = position - 1;
        }
        if position == 0 {
            proof {
                if chars.len() > 0 {
                    assert(is_continuation_byte(secret_bytes(self.bytes)[boundary]));
                }
            }
            return;
        }
        let last_character: usize = position - 1;
        proof {
            let byte = secret_bytes(self.bytes)[last_character as int];
            assert(0x80 <= byte <= 0xbf ==> (byte & 0xC0) == 0x80) by (bit_vector);
            assert(chars.len() > 0);
            if last_character > boundary {
                assert(is_continuation_byte(secret_bytes(self.bytes)[last_character as int]));
            }
            if last_character < boundary {
                assert(is_continuation_byte(secret_bytes(self.bytes)[boundary]));
            }
            assert(last_character == boundary);
            assert(secret_bytes(self.bytes).take(boundary) =~= encode_utf8(chars.drop_last()));
        }
        secret_wipe_from(&mut self.bytes, last_character);
        self.character_count = self.character_count.saturating_sub(1);
        self.characters = Ghost(chars.drop_last());
    }

    /// Removes all password bytes from memory.
    pub fn clear(&mut self)
        requires
            old(self).well_formed(),
        ensures
            final(self).well_formed(),
            final(self).max_characters() == old(self).max_characters(),
            final(self)@ == Seq::<char>::empty(),
    {
        secret_wipe(&mut self.bytes);
        self.character_count = 0;
        self.characters = Ghost(Seq::empty());
        proof {
            assert(encode_utf8(Seq::<char>::empty()) =~= Seq::<u8>::empty());
        }
    }

    /// Transfers the current secret into an authentication-only container.
    ///
    /// An empty input never produces an authentication attempt.
    pub fn submit(&mut self) -> (attempt: Option<PasswordAttempt>)
        requires
            old(self).well_formed(),
        ensures
            final(self).well_formed(),
            final(self).max_characters() == old(self).max_characters(),
            final(self)@ == Seq::<char>::empty(),
            old(self)@.len() == 0 ==> attempt is None,
            old(self)@.len() > 0 ==> (attempt matches Some(a) && a@ == encode_utf8(old(self)@)),
    {
        proof {
            lemma_encode_utf8_empty_iff(self.characters@);
        }
        if secret_len(&self.bytes) == 0 {
            self.characters = Ghost(Seq::empty());
            return None;
        }
        let mut taken = new_secret();
        std::mem::swap(&mut taken, &mut self.bytes);
        self.character_count = 0;
        self.characters = Ghost(Seq::empty());
        proof {
            assert(encode_utf8(Seq::<char>::empty()) =~= Seq::<u8>::empty());
        }
        Some(PasswordAttempt { bytes: taken })
    }

    pub fn character_count(&self) -> (count: usize)
        requires
            self.well_formed(),
        ensures
            count == self@.len(),
    {
        self.character_count
    }

    pub fn is_empty(&self) -> (empty: bool)
        requires
            self.well_formed(),
        ensures
            empty == (self@.len() == 0),
    {
        self.character_count == 0
    }
}

impl PasswordAttempt {
    /// Borrows the password only for the authentication boundary.
    pub fn as_bytes(&self) -> (bytes: &[u8])
        ensures
            bytes@ == self@,
    {
        secret_as_slice(&self.bytes)
    }
}

/// Whether `c` is a control character, as `char::is_control` decides it.
pub(crate) fn is_control(c: char) -> (control: bool)
    ensures
        control == is_control_char(c),
{
    let value = c as u32;
    value <= 0x1f || (0x7f <= value && value <= 0x9f)
}

/// Appends the UTF-8 encoding of `c`.
fn push_encoded(secret: &mut SecretBytes, c: char)
    requires
        secret_bytes(*old(secret)).len() + 4 < isize::MAX,
    ensures
        secret_bytes(*final(secret)) == secret_bytes(*old(secret)) + encode_scalar(c as u32),
{
    let ghost start = secret_bytes(*secret);
    let v: u32 = c as u32;
    proof {
        char_is_scalar(c);
    }
    if v <= 0x7f {
        let b0: u8 = (v & 0x7F) as u8;
        secret_push(secret, b0);
        assert(secret_bytes(*secret) =~= start + encode_scalar(v));
    } else if v <= 0x7ff {
        let b0: u8 = 0xC0 | ((v >> 6) & 0x1F) as u8;
        let b1: u8 = 0x80 | (v & 0x3F) as u8;
        secret_push(secret, b0);
        secret_push(secret, b1);
        assert(secret_bytes(*secret) =~= start + encode_scalar(v));
    } else if v <= 0xffff {
        let b0: u8 = 0xE0 | ((v >> 12) & 0x0F) as u8;
        let b1: u8 = 0x80 | ((v >> 6) & 0x3F) as u8;
        let b2: u8 = 0x80 | (v & 0x3F) as u8;
        secret_push(secret, b0);
        secret_push(secret, b1);
        secret_push(secret, b2);
        assert(secret_bytes(*secret) =~= start + encode_scalar(v));
    } else {
        let b0: u8 = 0xF0 | ((v >> 18) & 0x7) as u8;
        let b1: u8 = 0x80 | ((v >> 12) & 0x3F) as u8;
        let b2: u8 = 0x80 | ((v >> 6) & 0x3F) as u8;
        let b3: u8 = 0x80 | (v & 0x3F) as u8;
        secret_push(secret, b0);
        secret_push(secret, b1);
        secret_push(secret, b2);
        secret_push(secret, b3);
        assert(secret_bytes(*secret) =~= start + encode_scalar(v));
    }
}

/// The encoding of a sequence with one more character ends with that character's encoding.
proof fn lemma_encode_utf8_push(chars: Seq<char>, c: char)
    ensures
        encode_utf8(chars.push(c)) == encode_utf8(chars) + encode_scalar(c as u32),
    decreases chars.len(),
{
    if chars.len() == 0 {
        assert(chars.push(c).drop_first() =~= Seq::<char>::empty());
        assert(encode_utf8(Seq::<char>::empty()) =~= Seq::<u8>::empty());
        assert(encode_utf8(chars) =~= Seq::<u8>::empty());
        assert(encode_utf8(chars.push(c)) =~= encode_scalar(c as u32) + encode_utf8(Seq::<char>::empty()));
        assert(encode_utf8(chars.push(c)) =~= encode_utf8(chars) + encode_scalar(c as u32));
    } else {
        assert(chars.push(c).drop_first() =~= chars.drop_first().push(c));
        lemma_encode_utf8_push(chars.drop_first(), c);
        assert(encode_utf8(chars.push(c)) =~= encode_utf8(chars) + encode_scalar(c as u32));
    }
}

/// A sequence encodes to no bytes exactly when it is empty.
proof fn lemma_encode_utf8_empty_iff(chars: Seq<char>)
    ensures
        (encode_utf8(chars).len() == 0) == (chars.len() == 0),
{
    if chars.len() > 0 {
        assert(encode_scalar(chars[0] as u32).len() >= 1);
    }
}

/// Each character encodes to at most four bytes.
proof fn lemma_encode_utf8_len_bound(chars: Seq<char>)
    ensures
        encode_utf8(chars).len() <= 4 * chars.len(),
    decreases chars.len(),
{
    if chars.len() > 0 {
        lemma_encode_utf8_len_bound(chars.drop_first());
    }
}

/// The encoding of a character starts with a byte that is not a continuation byte,
/// and every later byte is one.
proof fn lemma_scalar_bytes(c: char)
    ensures
        encode_scalar(c as u32).len() >= 1,
        !is_continuation_byte(encode_scalar(c as u32)[0]),
        forall|j: int|
            1 <= j < encode_scalar(c as u32).len() ==> is_continuation_byte(
                #[trigger] encode_scalar(c as u32)[j],
            ),
{
    let v = c as u32;
    char_is_scalar(c);
    assert(0x80u8 | (v & 0x3F) as u8 >= 0x80 && 0x80u8 | (v & 0x3F) as u8 <= 0xbf) by (bit_vector);
    assert(0x80u8 | ((v >> 6) & 0x3F) as u8 >= 0x80 && 0x80u8 | ((v >> 6) & 0x3F) as u8 <= 0xbf)
        by (bit_vector);
    assert(0x80u8 | ((v >> 12) & 0x3F) as u8 >= 0x80 && 0x80u8 | ((v >> 12) & 0x3F) as u8 <= 0xbf)
        by (bit_vector);
    assert(0xC0u8 | ((v >> 6) & 0x1F) as u8 >= 0xC0) by (bit_vector);
    assert(0xE0u8 | ((v >> 12) & 0x0F) as u8 >= 0xE0) by (bit_vector);
    assert(0xF0u8 | ((v >> 18) & 0x7) as u8 >= 0xF0) by (bit_vector);
    assert(v <= 0x7f ==> (v & 0x7F) as u8 <= 0x7f) by (bit_vector);
}

/// Removing a prefix's printable characters keeps their count no larger.
proof fn lemma_printable_len(text: Seq<char>)
    ensures
        printable(text).len() <= text.len(),
    decreases text.len(),
{
    if text.len() > 0 {
        lemma_printable_len(text.drop_last());
    }
}

/// The printable characters of a prefix are a prefix of the printable characters.
proof fn lemma_printable_prefix(text: Seq<char>, index: int)
    requires
        0 <= index <= text.len(),
    ensures
        printable(text.take(index)).len() <= printable(text).len(),
        printable(text).take(printable(text.take(index)).len() as int) == printable(text.take(index)),
    decreases text.len() - index,
{
    if index == text.len() {
        assert(text.take(index) =~= text);
        assert(printable(text).take(printable(text).len() as int) =~= printable(text));
    } else {
        lemma_printable_prefix(text, index + 1);
        assert(text.take(index + 1).drop_last() =~= text.take(index));
        let shorter = printable(text.take(index));
        let longer = printable(text.take(index + 1));
        assert(longer.take(shorter.len() as int) =~= shorter);
        assert(printable(text).take(shorter.len() as int) =~= longer.take(shorter.len() as int));
    }
}

/// A well-formed input never holds more characters than its limit, and never a
/// control character.
pub proof fn lemma_input_stays_bounded_and_printable(input: &InputState)
    requires
        input.well_formed(),
    ensures
        input@.len() <= input.max_characters(),
        forall|i: int| 0 <= i < input@.len() ==> !is_control_char(#[trigger] input@[i]),
{
}

/// `Backspace` undoes typing one printable character while there is room for it.
pub proof fn lemma_backspace_undoes_one_character(current: Seq<char>, c: char, max: nat)
    requires
        !is_control_char(c),
        current.len() < max,
    ensures
        accept_text(current, seq![c], max).len() == current.len() + 1,
        accept_text(current, seq![c], max).drop_last() == current,
{
    let single = seq![c];
    assert(single.drop_last() =~= Seq::<char>::empty());
    assert(single.last() == c);
    assert(printable(Seq::<char>::empty()) == Seq::<char>::empty());
    assert(printable(single) == printable(single.drop_last()).push(c));
    assert(printable(single) =~= single);
    assert((current + seq![c]).drop_last() =~= current);
}

/// Typing into a full input changes nothing.
pub proof fn lemma_full_input_ignores_text(current: Seq<char>, text: Seq<char>, max: nat)
    requires
        current.len() == max,
    ensures
        accept_text(current, text, max) == current,
{
    assert(printable(text).take(0) =~= Seq::<char>::empty());
    assert(current + Seq::<char>::empty() =~= current);
    if printable(text).len() == 0 {
        assert(current + printable(text) =~= current);
    }
}

/// Typing keeps exactly the characters outside Unicode's control category Cc
/// (U+0000 to U+001F and U+007F to U+009F), in order: spaces, punctuation and
/// every other character are kept. So text without such characters is appended
/// whole while it fits the limit.
pub proof fn lemma_only_unicode_controls_are_dropped(current: Seq<char>, text: Seq<char>, max: nat)
    ensures
        printable(text) == text.filter(
            |c: char| !((c as u32) <= 0x1f || (0x7f <= (c as u32) && (c as u32) <= 0x9f)),
        ),
        (forall|i: int|
            0 <= i < text.len() ==> !((#[trigger] text[i] as u32) <= 0x1f || (0x7f <= (
            text[i] as u32) && (text[i] as u32) <= 0x9f))) && current.len() + text.len() <= max
            ==> accept_text(current, text, max) == current + text,
    decreases text.len(),
{
    let keep = |c: char| !((c as u32) <= 0x1f || (0x7f <= (c as u32) && (c as u32) <= 0x9f));
    if text.len() == 0 {
        assert(text.filter(keep) =~= text) by {
            reveal_with_fuel(Seq::filter, 1);
        }
    } else {
        let rest = text.drop_last();
        lemma_only_unicode_controls_are_dropped(current, rest, max);
        assert(rest.push(text.last()) =~= text);
        rest.lemma_filter_push(text.last(), keep);
    }
    if forall|i: int|
        0 <= i < text.len() ==> !((#[trigger] text[i] as u32) <= 0x1f || (0x7f <= (text[i] as u32)
            && (text[i] as u32) <= 0x9f)) {
        lemma_filter_keeps_all(text, keep);
        lemma_printable_len(text);
    }
}

proof fn lemma_filter_keeps_all(text: Seq<char>, keep: spec_fn(char) -> bool)
    requires
        forall|i: int| 0 <= i < text.len() ==> keep(#[trigger] text[i]),
    ensures
        text.filter(keep) == text,
    decreases text.len(),
{
    if text.len() == 0 {
        reveal_with_fuel(Seq::filter, 1);
    } else {
        let rest = text.drop_last();
        lemma_filter_keeps_all(rest, keep);
        assert(rest.push(text.last()) =~= text);
        rest.lemma_filter_push(text.last(), keep);
    }
}

} // verus!
