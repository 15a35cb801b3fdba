//! Stable 64-bit fingerprints (FNV-1a) over integers and strings.

use vstd::bytes::*;
use vstd::prelude::*;
use vstd::string::*;

verus! {

pub const FINGERPRINT_OFFSET: u64 = 0xcbf29ce484222325;

pub const FINGERPRINT_PRIME: u64 = 0x100000001b3;

/// One absorption step: exclusive-or with the byte, then multiply modulo 2^64.
pub open spec fn absorb(hash: u64, byte: u8) -> u64 {
    (hash ^ (byte as u64)).wrapping_mul(FINGERPRINT_PRIME)
}

/// The hash after absorbing `bytes` in order.
pub open spec fn absorb_all(hash: u64, bytes: Seq<u8>) -> u64 {
    bytes.fold_left(hash, |h: u64, b: u8| absorb(h, b))
}

/// The bytes by which an integer enters a fingerprint.
pub open spec fn integer_bytes(value: u64) -> Seq<u8> {
    spec_u64_to_le_bytes(value)
}

/// The bytes by which a list of integers enters a fingerprint.
pub open spec fn integer_list_bytes(values: Seq<u64>) -> Seq<u8>
    decreases values.len(),
{
    if values.len() == 0 {
        Seq::empty()
    } else {
        integer_list_bytes(values.drop_last()) + integer_bytes(values.last())
    }
}

/// The bytes by which a string enters a fingerprint: its length, then its UTF-8.
pub open spec fn string_bytes(text: Seq<char>) -> Seq<u8> {
    let encoded = vstd::utf8::encode_utf8(text);
    integer_bytes(encoded.len() as u64) + encoded
}

/// The fingerprint of a byte sequence.
pub open spec fn fingerprint_of(bytes: Seq<u8>) -> u64 {
    absorb_all(FINGERPRINT_OFFSET, bytes)
}

/// Absorbing a concatenation is absorbing its parts in turn.
pub proof fn lemma_absorb_concat(hash: u64, left: Seq<u8>, right: Seq<u8>)
    ensures
        absorb_all(hash, left + right) == absorb_all(absorb_all(hash, left), right),
{
    let step = |h: u64, b: u8| absorb(h, b);
    (left + right).lemma_fold_left_split(hash, step, left.len() as int);
    assert((left + right).subrange(0, left.len() as int) =~= left);
    assert((left + right).subrange(left.len() as int, (left + right).len() as int) =~= right);
}

fn fingerprint_bytes(hash: &mut u64, bytes: &[u8])
    ensures
        *final(hash) == absorb_all(*old(hash), bytes@),
{
    let ghost start = *hash;
    let ghost step = |h: u64, b: u8| absorb(h, b);
    for i in 0..bytes.len()
        invariant
            *hash == absorb_all(start, bytes@.subrange(0, i as int)),
            step == (|h: u64, b: u8| absorb(h, b)),
    {
        proof {
            let upto = bytes@.subrange(0, i as int + 1);
            assert(upto.drop_last() =~= bytes@.subrange(0, i as int));
            assert(upto.last() == bytes@[i as int]);
        }
        *hash = (*hash ^ (bytes[i] as u64)).wrapping_mul(FINGERPRINT_PRIME);
    }
    assert(bytes@.subrange(0, bytes.len() as int) =~= bytes@);
}

/// A running fingerprint. Its view is the sequence of bytes absorbed so far.
pub struct Fingerprint {
    hash: u64,
    absorbed: Ghost<Seq<u8>>,
}

impl View for Fingerprint {
    type V = Seq<u8>;

    closed spec fn view(&self) -> Seq<u8> {
        self.absorbed@
    }
}

impl Fingerprint {
    pub closed spec fn wf(&self) -> bool {
        self.hash == fingerprint_of(self.absorbed@)
    }

    pub fn start() -> (fingerprint: Self)
        ensures
            fingerprint.wf(),
            fingerprint@ == Seq::<u8>::empty(),
    {
        Fingerprint { hash: FINGERPRINT_OFFSET, absorbed: Ghost(Seq::empty()) }
    }

    pub fn add_u64(&mut self, value: u64)
        requires
            old(self).wf(),
        ensures
            final(self).wf(),
            final(self)@ == old(self)@ + integer_bytes(value),
    {
        let bytes = u64_to_le_bytes(value);
        let ghost before = self.absorbed@;
        fingerprint_bytes(&mut self.hash, bytes.as_slice());
        proof {
            lemma_absorb_concat(FINGERPRINT_OFFSET, before, bytes@);
        }
        self.absorbed = Ghost(before + bytes@);
    }

    pub fn add_integers(&mut self, values: &Vec<u64>)
        requires
            old(self).wf(),
        ensures
            final(self).wf(),
            final(self)@ == old(self)@ + integer_list_bytes(values@),
    {
        let ghost head = self@;
        assert(head =~= head + integer_list_bytes(values@.take(0)));
        for i in 0..values.len()
            invariant
                self.wf(),
                self@ == head + integer_list_bytes(values@.take(i as int)),
        {
            assert(values@.take(i as int + 1).drop_last() =~= values@.take(i as int));
            self.add_u64(values[i]);
            assert(self@ =~= head + integer_list_bytes(values@.take(i as int + 1)));
        }
        assert(values@.take(values@.len() as int) =~= values@);
    }

    pub fn add_bool(&mut self, value: bool)
        requires
            old(self).wf(),
        ensures
            final(self).wf(),
            final(self)@ == old(self)@ + flag_bytes(value),
    {
        self.add_u64(
            if value {
                1
            } else {
                0
            },
        );
    }

    pub fn add_str(&mut self, value: &str)
        requires
            old(self).wf(),
        ensures
            final(self).wf(),
            final(self)@ == old(self)@ + string_bytes(value@),
    {
        let bytes = value.as_bytes();
        self.add_u64(bytes.len() as u64);
        let ghost before = self.absorbed@;
        fingerprint_bytes(&mut self.hash, bytes);
        proof {
            lemma_absorb_concat(FINGERPRINT_OFFSET, before, bytes@);
        }
        self.absorbed = Ghost(before + bytes@);
        assert(self@ =~= old(self)@ + string_bytes(value@));
    }

    /// The text enters as its UTF-8 alone, without its length.
    pub fn add_text(&mut self, value: &str)
        requires
            old(self).wf(),
        ensures
            final(self).wf(),
            final(self)@ == old(self)@ + vstd::utf8::encode_utf8(value@),
    {
        let bytes = value.as_bytes();
        let ghost before = self.absorbed@;
        fingerprint_bytes(&mut self.hash, bytes);
        proof {
            lemma_absorb_concat(FINGERPRINT_OFFSET, before, bytes@);
        }
        self.absorbed = Ghost(before + bytes@);
    }

    /// An absent string enters as the empty string.
    pub fn add_optional_str(&mut self, value: &Option<String>)
        requires
            old(self).wf(),
        ensures
            final(self).wf(),
            final(self)@ == old(self)@ + optional_string_bytes(*value),
    {
        match value {
            Some(text) => self.add_str(text.as_str()),
            None => {
                proof {
                    reveal_strlit("");
                    assert(""@ =~= Seq::empty());
                }
                self.add_str("")
            },
        }
    }

    pub fn finish(&self) -> (hash: u64)
        requires
            self.wf(),
        ensures
            hash == fingerprint_of(self@),
    {
        self.hash
    }
}

/// The bytes by which a flag enters a fingerprint.
pub open spec fn flag_bytes(value: bool) -> Seq<u8> {
    integer_bytes(
        if value {
            1
        } else {
            0
        },
    )
}

/// The bytes by which an optional string enters a fingerprint.
pub open spec fn optional_string_bytes(value: Option<String>) -> Seq<u8> {
    match value {
        Some(text) => string_bytes(text@),
        None => string_bytes(Seq::empty()),
    }
}

/// A fingerprint starts from a fixed number and takes in one byte after another: it
/// is combined with the byte and multiplied by a fixed prime, modulo two to the
/// power of sixty-four.
pub proof fn lemma_fingerprint_steps(bytes: Seq<u8>, byte: u8)
    ensures
        fingerprint_of(Seq::empty()) == 0xcbf29ce484222325u64,
        fingerprint_of(bytes.push(byte)) == (fingerprint_of(bytes) ^ (byte as u64)).wrapping_mul(
            0x100000001b3u64,
        ),
{
    lemma_absorb_concat(FINGERPRINT_OFFSET, bytes, seq![byte]);
    assert(bytes + seq![byte] =~= bytes.push(byte));
    let step = |h: u64, b: u8| absorb(h, b);
    let start = fingerprint_of(bytes);
    let one = seq![byte];
    assert(one.drop_last() =~= Seq::empty());
    reveal_with_fuel(Seq::fold_left, 2);
    assert(one.fold_left(start, step) == absorb(start, byte));
    assert(Seq::<u8>::empty().fold_left(FINGERPRINT_OFFSET, step) == FINGERPRINT_OFFSET);
}

/// Numbers that are taken in first can be told apart, and so can what follows them.
pub proof fn lemma_integer_told_apart(left: u64, right: u64, after: Seq<u8>, behind: Seq<u8>)
    requires
        integer_bytes(left) + after == integer_bytes(right) + behind,
    ensures
        left == right,
        after == behind,
{
    lemma_auto_spec_u64_to_from_le_bytes();
    let first = integer_bytes(left) + after;
    let second = integer_bytes(right) + behind;
    assert(first.take(8) =~= integer_bytes(left));
    assert(second.take(8) =~= integer_bytes(right));
    assert(first.skip(8) =~= after);
    assert(second.skip(8) =~= behind);
    assert(spec_u64_from_le_bytes(integer_bytes(left)) == left);
}

/// Texts that are taken in first can be told apart, and so can what follows them,
/// because their length comes first.
pub proof fn lemma_text_told_apart(
    left: Seq<char>,
    right: Seq<char>,
    after: Seq<u8>,
    behind: Seq<u8>,
)
    requires
        string_bytes(left) + after == string_bytes(right) + behind,
        vstd::utf8::encode_utf8(left).len() <= u64::MAX,
        vstd::utf8::encode_utf8(right).len() <= u64::MAX,
    ensures
        left == right,
        after == behind,
{
    let a = vstd::utf8::encode_utf8(left);
    let b = vstd::utf8::encode_utf8(right);
    assert(string_bytes(left) + after =~= integer_bytes(a.len() as u64) + (a + after));
    assert(string_bytes(right) + behind =~= integer_bytes(b.len() as u64) + (b + behind));
    lemma_integer_told_apart(a.len() as u64, b.len() as u64, a + after, b + behind);
    assert((a + after).take(a.len() as int) =~= a);
    assert((b + behind).take(b.len() as int) =~= b);
    assert((a + after).skip(a.len() as int) =~= after);
    assert((b + behind).skip(b.len() as int) =~= behind);
    vstd::utf8::encode_utf8_decode_utf8(left);
    vstd::utf8::encode_utf8_decode_utf8(right);
}

/// Flags that are taken in first can be told apart, and so can what follows them.
pub proof fn lemma_flag_told_apart(left: bool, right: bool, after: Seq<u8>, behind: Seq<u8>)
    requires
        flag_bytes(left) + after == flag_bytes(right) + behind,
    ensures
        left == right,
        after == behind,
{
    lemma_integer_told_apart(
        if left {
            1
        } else {
            0
        },
        if right {
            1
        } else {
            0
        },
        after,
        behind,
    );
}

/// The text of an optional string, an absent one counting as empty.
pub open spec fn text_or_empty(value: Option<String>) -> Seq<char> {
    match value {
        Some(text) => text@,
        None => Seq::empty(),
    }
}

/// Optional strings that are taken in first can be told apart, but for an absent one
/// and an empty one, and so can what follows them.
pub proof fn lemma_optional_told_apart(
    left: Option<String>,
    right: Option<String>,
    after: Seq<u8>,
    behind: Seq<u8>,
)
    requires
        optional_string_bytes(left) + after == optional_string_bytes(right) + behind,
        vstd::utf8::encode_utf8(text_or_empty(left)).len() <= u64::MAX,
        vstd::utf8::encode_utf8(text_or_empty(right)).len() <= u64::MAX,
    ensures
        text_or_empty(left) == text_or_empty(right),
        after == behind,
{
    lemma_text_told_apart(text_or_empty(left), text_or_empty(right), after, behind);
}

/// Lists of as many integers that are taken in first can be told apart, and so can
/// what follows them.
pub proof fn lemma_integers_told_apart(
    left: Seq<u64>,
    right: Seq<u64>,
    after: Seq<u8>,
    behind: Seq<u8>,
)
    requires
        left.len() == right.len(),
        integer_list_bytes(left) + after == integer_list_bytes(right) + behind,
    ensures
        left == right,
        after == behind,
    decreases left.len(),
{
    if left.len() == 0 {
        assert(integer_list_bytes(left) + after =~= after);
        assert(integer_list_bytes(right) + behind =~= behind);
        assert(left =~= right);
    } else {
        assert(integer_list_bytes(left) + after =~= integer_list_bytes(left.drop_last()) + (
        integer_bytes(left.last()) + after));
        assert(integer_list_bytes(right) + behind =~= integer_list_bytes(right.drop_last()) + (
        integer_bytes(right.last()) + behind));
        lemma_integers_told_apart(
            left.drop_last(),
            right.drop_last(),
            integer_bytes(left.last()) + after,
            integer_bytes(right.last()) + behind,
        );
        lemma_integer_told_apart(left.last(), right.last(), after, behind);
        assert(left =~= left.drop_last().push(left.last()));
        assert(right =~= right.drop_last().push(right.last()));
    }
}

/// Bytes that are taken in one after another, seen from the first ones on.
pub proof fn lemma_regrouped2(a: Seq<u8>, b: Seq<u8>, rest: Seq<u8>)
    ensures
        a + b + rest == a + (b + rest),
{
    assert(a + b + rest =~= a + (b + rest));
}

/// Bytes that are taken in one after another, seen from the first ones on.
pub proof fn lemma_regrouped3(a: Seq<u8>, b: Seq<u8>, c: Seq<u8>, rest: Seq<u8>)
    ensures
        a + b + c + rest == a + (b + (c + rest)),
{
    assert(a + b + c + rest =~= a + (b + (c + rest)));
}

/// Bytes that are taken in one after another, seen from the first ones on.
pub proof fn lemma_regrouped4(a: Seq<u8>, b: Seq<u8>, c: Seq<u8>, d: Seq<u8>, rest: Seq<u8>)
    ensures
        a + b + c + d + rest == a + (b + (c + (d + rest))),
{
    lemma_regrouped3(a + b, c, d, rest);
    assert(a + b + (c + (d + rest)) =~= a + (b + (c + (d + rest))));
}

/// What is behind the first bytes.
pub proof fn lemma_behind(first: Seq<u8>, left: Seq<u8>, right: Seq<u8>)
    requires
        first + left == first + right,
    ensures
        left == right,
{
    assert((first + left).skip(first.len() as int) =~= left);
    assert((first + right).skip(first.len() as int) =~= right);
}

/// A number enters a fingerprint by eight bytes, a flag too, and a text by eight
/// bytes for its length before its own.
pub proof fn lemma_lengths_taken_in(value: u64, flag: bool, text: Seq<char>)
    ensures
        integer_bytes(value).len() == 8,
        flag_bytes(flag).len() == 8,
        string_bytes(text).len() == 8 + vstd::utf8::encode_utf8(text).len(),
{
    lemma_auto_spec_u64_to_from_le_bytes();
}

} // verus!
