//! Text building blocks: decimal and hexadecimal rendering, concatenation and
//! the textual view of results whose error is a message.

use vstd::prelude::*;
use vstd::string::*;

verus! {

/// A result whose error is read as the characters of its message.
pub open spec fn text_result<T>(result: Result<T, String>) -> Result<T, Seq<char>> {
    match result {
        Ok(value) => Ok(value),
        Err(message) => Err(message@),
    }
}

/// The characters of an optional string.
pub open spec fn text_option(value: Option<String>) -> Option<Seq<char>> {
    match value {
        Some(text) => Some(text@),
        None => None,
    }
}

/// The characters of each string of a list.
pub open spec fn texts(values: Seq<String>) -> Seq<Seq<char>> {
    Seq::new(values.len(), |i: int| values[i]@)
}

/// The character of one decimal digit.
pub open spec fn decimal_digit(digit: nat) -> char {
    (('0' as u32) + digit) as char
}

/// Decimal notation without leading zeros.
pub open spec fn decimal(value: nat) -> Seq<char>
    decreases value,
{
    if value < 10 {
        seq![decimal_digit(value)]
    } else {
        decimal(value / 10).push(decimal_digit(value % 10))
    }
}

pub open spec fn is_decimal_digit(c: char) -> bool {
    '0' as int <= c as int <= '9' as int
}

pub fn decimal_char(c: char) -> (yes: bool)
    ensures
        yes == is_decimal_digit(c),
{
    proof {
        vstd::utf8::char_u32_cast(c, c as u32);
    }
    let code: u32 = c as u32;
    48 <= code && code <= 57
}

/// Decimal notation is not empty and holds digits only.
pub proof fn lemma_decimal_digits(value: nat)
    ensures
        decimal(value).len() > 0,
        forall|i: int|
            0 <= i < decimal(value).len() ==> is_decimal_digit(#[trigger] decimal(value)[i]),
    decreases value,
{
    if value >= 10 {
        lemma_decimal_digits(value / 10);
    }
}

/// Different numbers have different decimal notations.
pub proof fn lemma_decimal_injective(left: nat, right: nat)
    requires
        decimal(left) == decimal(right),
    ensures
        left == right,
    decreases left,
{
    lemma_decimal_digits(left);
    lemma_decimal_digits(right);
    if left >= 10 {
        lemma_decimal_digits(left / 10);
    }
    if right >= 10 {
        lemma_decimal_digits(right / 10);
    }
    assert(decimal(left).last() == decimal_digit(left % 10));
    assert(decimal(right).last() == decimal_digit(right % 10));
    if left >= 10 && right >= 10 {
        assert(decimal(left).drop_last() =~= decimal(left / 10));
        assert(decimal(right).drop_last() =~= decimal(right / 10));
        lemma_decimal_injective(left / 10, right / 10);
    } else if left >= 10 {
        assert(decimal(left).len() > 1);
    } else if right >= 10 {
        assert(decimal(right).len() > 1);
    }
}

/// The decimal digit `digit` as a one-character string.
fn digit_str(digit: u64) -> (text: &'static str)
    requires
        digit < 10,
    ensures
        text@ == seq![decimal_digit(digit as nat)],
{
    proof {
        reveal_strlit("0");
        reveal_strlit("1");
        reveal_strlit("2");
        reveal_strlit("3");
        reveal_strlit("4");
        reveal_strlit("5");
        reveal_strlit("6");
        reveal_strlit("7");
        reveal_strlit("8");
        reveal_strlit("9");
    }
    let text = match digit {
        0 => "0",
        1 => "1",
        2 => "2",
        3 => "3",
        4 => "4",
        5 => "5",
        6 => "6",
        7 => "7",
        8 => "8",
        _ => "9",
    };
    assert(text@ =~= seq![decimal_digit(digit as nat)]);
    text
}

/// Appends `value` in decimal notation.
pub fn push_decimal(out: &mut String, value: u64)
    ensures
        final(out)@ == old(out)@ + decimal(value as nat),
    decreases value,
{
    if value < 10 {
        out.append(digit_str(value));
    } else {
        push_decimal(out, value / 10);
        let ghost before = out@;
        out.append(digit_str(value % 10));
        assert(out@ =~= old(out)@ + decimal(value as nat));
    }
}

/// The character of one hexadecimal digit, in lower case.
pub open spec fn hex_digit(digit: nat) -> char {
    if digit < 10 {
        decimal_digit(digit)
    } else {
        (('a' as u32) + digit - 10) as char
    }
}

/// The last `width` hexadecimal digits of a number.
pub open spec fn hex(value: nat, width: nat) -> Seq<char>
    decreases width,
{
    if width == 0 {
        Seq::empty()
    } else {
        hex(value / 16, (width - 1) as nat).push(hex_digit(value % 16))
    }
}

fn hex_str(digit: u64) -> (text: &'static str)
    requires
        digit < 16,
    ensures
        text@ == seq![hex_digit(digit as nat)],
{
    if digit < 10 {
        return digit_str(digit);
    }
    proof {
        reveal_strlit("a");
        reveal_strlit("b");
        reveal_strlit("c");
        reveal_strlit("d");
        reveal_strlit("e");
        reveal_strlit("f");
    }
    let text = match digit {
        10 => "a",
        11 => "b",
        12 => "c",
        13 => "d",
        14 => "e",
        _ => "f",
    };
    assert(text@ =~= seq![hex_digit(digit as nat)]);
    text
}

/// Appends the last `width` hexadecimal digits of `value`.
pub fn push_hex(out: &mut String, value: u64, width: u8)
    ensures
        final(out)@ == old(out)@ + hex(value as nat, width as nat),
    decreases width,
{
    if width == 0 {
        assert(out@ =~= old(out)@ + hex(value as nat, 0));
        return;
    }
    push_hex(out, value / 16, width - 1);
    out.append(hex_str(value % 16));
    assert(out@ =~= old(out)@ + hex(value as nat, width as nat));
}

/// Hexadecimal notation without leading zeros.
pub open spec fn plain_hex(value: nat) -> Seq<char>
    decreases value,
{
    if value < 16 {
        seq![hex_digit(value)]
    } else {
        plain_hex(value / 16).push(hex_digit(value % 16))
    }
}

/// Appends `value` in hexadecimal notation.
pub fn push_plain_hex(out: &mut String, value: u64)
    ensures
        final(out)@ == old(out)@ + plain_hex(value as nat),
    decreases value,
{
    if value < 16 {
        out.append(hex_str(value));
    } else {
        push_plain_hex(out, value / 16);
        out.append(hex_str(value % 16));
        assert(out@ =~= old(out)@ + plain_hex(value as nat));
    }
}

/// The characters of `text`, in order.
pub fn to_chars(text: &str) -> (chars: Vec<char>)
    ensures
        chars@ == text@,
{
    let mut chars: Vec<char> = Vec::new();
    for c in iter: text.chars()
        invariant
            iter.seq() == text@,
            chars@ == text@.subrange(0, iter.index() as int),
    {
        proof {
            let i = iter.index() as int;
            assert(text@.subrange(0, i).push(c) =~= text@.subrange(0, i + 1));
        }
        chars.push(c);
    }
    assert(text@.subrange(0, text@.len() as int) =~= text@);
    chars
}

/// `prefix` is how `text` begins.
pub open spec fn has_prefix(text: Seq<char>, prefix: Seq<char>) -> bool {
    prefix.len() <= text.len() && text.subrange(0, prefix.len() as int) == prefix
}

/// Whether `text` begins with `prefix`.
pub fn starts_with(text: &str, prefix: &str) -> (found: bool)
    ensures
        found == has_prefix(text@, prefix@),
{
    let text_chars = to_chars(text);
    let prefix_chars = to_chars(prefix);
    if prefix_chars.len() > text_chars.len() {
        return false;
    }
    for i in 0..prefix_chars.len()
        invariant
            prefix_chars@ == prefix@,
            text_chars@ == text@,
            prefix@.len() <= text@.len(),
            forall|j: int| 0 <= j < i ==> text@[j] == prefix@[j],
    {
        if text_chars[i] != prefix_chars[i] {
            assert(text@.subrange(0, prefix@.len() as int)[i as int] != prefix@[i as int]);
            return false;
        }
    }
    assert(text@.subrange(0, prefix@.len() as int) =~= prefix@);
    true
}

/// Whether two strings hold the same characters.
pub fn str_equal(left: &str, right: &str) -> (equal: bool)
    ensures
        equal == (left@ == right@),
{
    let left_chars = to_chars(left);
    let right_chars = to_chars(right);
    if left_chars.len() != right_chars.len() {
        return false;
    }
    for i in 0..left_chars.len()
        invariant
            left_chars@ == left@,
            right_chars@ == right@,
            left@.len() == right@.len(),
            forall|j: int| 0 <= j < i ==> left@[j] == right@[j],
    {
        if left_chars[i] != right_chars[i] {
            return false;
        }
    }
    assert(left@ =~= right@);
    true
}

/// Whether two lists hold the same strings in the same order.
pub fn same_texts(left: &Vec<String>, right: &Vec<String>) -> (same: bool)
    ensures
        same == (texts(left@) == texts(right@)),
{
    if left.len() != right.len() {
        assert(texts(left@).len() != texts(right@).len());
        return false;
    }
    for i in 0..left.len()
        invariant
            left@.len() == right@.len(),
            forall|j: int| 0 <= j < i ==> #[trigger] texts(left@)[j] == texts(right@)[j],
    {
        if !str_equal(left[i].as_str(), right[i].as_str()) {
            assert(texts(left@)[i as int] != texts(right@)[i as int]);
            return false;
        }
    }
    assert(texts(left@) =~= texts(right@));
    true
}

/// A copy of a list of strings.
pub fn copy_texts(values: &Vec<String>) -> (copy: Vec<String>)
    ensures
        texts(copy@) == texts(values@),
{
    let mut copy: Vec<String> = Vec::new();
    for i in 0..values.len()
        invariant
            copy@.len() == i,
            forall|j: int| 0 <= j < i ==> (#[trigger] copy@[j])@ == values@[j]@,
    {
        copy.push(values[i].clone());
    }
    assert(texts(copy@) =~= texts(values@));
    copy
}

/// Whether two optional strings are both absent or hold the same characters.
pub fn same_option(left: &Option<String>, right: &Option<String>) -> (same: bool)
    ensures
        same == (text_option(*left) == text_option(*right)),
{
    match (left, right) {
        (Some(a), Some(b)) => str_equal(a.as_str(), b.as_str()),
        (None, None) => true,
        _ => false,
    }
}

/// Code-point order of character sequences: the first difference decides, and a
/// proper prefix comes first.
pub open spec fn text_less(left: Seq<char>, right: Seq<char>) -> bool
    decreases left.len(),
{
    if right.len() == 0 {
        false
    } else if left.len() == 0 {
        true
    } else if left[0] != right[0] {
        (left[0] as int) < (right[0] as int)
    } else {
        text_less(left.drop_first(), right.drop_first())
    }
}

/// The order is irreflexive and total.
pub proof fn lemma_text_less_total(left: Seq<char>, right: Seq<char>)
    ensures
        !(text_less(left, right) && text_less(right, left)),
        text_less(left, right) || text_less(right, left) || left == right,
        left == right ==> !text_less(left, right),
    decreases left.len(),
{
    if left.len() > 0 && right.len() > 0 && left[0] == right[0] {
        lemma_text_less_total(left.drop_first(), right.drop_first());
        if left.drop_first() == right.drop_first() {
            assert(left =~= seq![left[0]] + left.drop_first());
            assert(right =~= seq![right[0]] + right.drop_first());
        }
    } else if left.len() == 0 && right.len() == 0 {
        assert(left =~= right);
    }
}

/// The order is transitive.
pub proof fn lemma_text_less_transitive(first: Seq<char>, second: Seq<char>, third: Seq<char>)
    requires
        text_less(first, second),
        text_less(second, third),
    ensures
        text_less(first, third),
    decreases first.len(),
{
    if first.len() > 0 && first[0] == second[0] && second[0] == third[0] {
        lemma_text_less_transitive(first.drop_first(), second.drop_first(), third.drop_first());
    }
}

/// Whether `left` comes before `right` in code-point order.
pub fn str_less(left: &str, right: &str) -> (less: bool)
    ensures
        less == text_less(left@, right@),
{
    let left_chars = to_chars(left);
    let right_chars = to_chars(right);
    let mut i: usize = 0;
    proof {
        assert(left@.skip(0) =~= left@);
        assert(right@.skip(0) =~= right@);
    }
    while i < left_chars.len() && i < right_chars.len()
        invariant
            left_chars@ == left@,
            right_chars@ == right@,
            i <= left@.len(),
            i <= right@.len(),
            text_less(left@, right@) == text_less(left@.skip(i as int), right@.skip(i as int)),
        decreases left_chars.len() - i,
    {
        proof {
            assert(left@.skip(i as int).drop_first() =~= left@.skip(i as int + 1));
            assert(right@.skip(i as int).drop_first() =~= right@.skip(i as int + 1));
        }
        if left_chars[i] != right_chars[i] {
            let left_code: u32 = left_chars[i] as u32;
            let right_code: u32 = right_chars[i] as u32;
            proof {
                vstd::utf8::char_is_scalar(left_chars[i as int]);
                vstd::utf8::char_is_scalar(right_chars[i as int]);
                vstd::utf8::char_u32_cast(left_chars[i as int], left_code);
                vstd::utf8::char_u32_cast(right_chars[i as int], right_code);
            }
            return left_code < right_code;
        }
        i += 1;
    }
    i < right_chars.len()
}

/// Where a name enters an ordered list of indices: behind every name that does
/// not come after it.
pub open spec fn name_place(names: Seq<Seq<char>>, order: Seq<int>, name: Seq<char>) -> int
    decreases order.len(),
{
    if order.len() == 0 || !text_less(name, names[order.last()]) {
        order.len() as int
    } else {
        name_place(names, order.drop_last(), name)
    }
}

/// The indices of `names` by name in code-point order; equal names keep the
/// order they have.
pub open spec fn name_order(names: Seq<Seq<char>>) -> Seq<int>
    decreases names.len(),
{
    if names.len() == 0 {
        Seq::empty()
    } else {
        let earlier = name_order(names.drop_last());
        earlier.insert(
            name_place(names.drop_last(), earlier, names.last()),
            names.len() - 1,
        )
    }
}

/// The listed names ascend, and every index is listed.
pub open spec fn is_name_order(names: Seq<Seq<char>>, order: Seq<int>) -> bool {
    &&& order.len() == names.len()
    &&& forall|k: int| 0 <= k < order.len() ==> 0 <= #[trigger] order[k] < names.len()
    &&& forall|j: int, k: int|
        #![trigger order[j], order[k]]
        0 <= j < k < order.len() ==> order[j] != order[k] && !text_less(
            names[order[k]],
            names[order[j]],
        )
}

proof fn lemma_name_place(names: Seq<Seq<char>>, order: Seq<int>, name: Seq<char>)
    ensures
        0 <= name_place(names, order, name) <= order.len(),
        forall|k: int|
            name_place(names, order, name) <= k < order.len() ==> text_less(
                name,
                names[#[trigger] order[k]],
            ),
        name_place(names, order, name) > 0 ==> !text_less(
            name,
            names[order[name_place(names, order, name) - 1]],
        ),
    decreases order.len(),
{
    if order.len() > 0 && text_less(name, names[order.last()]) {
        lemma_name_place(names, order.drop_last(), name);
        assert forall|k: int|
            name_place(names, order, name) <= k < order.len() implies text_less(
            name,
            names[#[trigger] order[k]],
        ) by {
            if k < order.len() - 1 {
                assert(order.drop_last()[k] == order[k]);
            }
        }
    }
}

proof fn lemma_not_less_transitive(first: Seq<char>, second: Seq<char>, third: Seq<char>)
    requires
        !text_less(second, first),
        !text_less(third, second),
    ensures
        !text_less(third, first),
{
    lemma_text_less_total(first, second);
    lemma_text_less_total(second, third);
    lemma_text_less_total(first, third);
    if text_less(third, first) {
        if first != second {
            if second != third {
                lemma_text_less_transitive(first, second, third);
            }
        }
    }
}

/// `name_order` lists every index once, by ascending name.
pub proof fn lemma_name_order(names: Seq<Seq<char>>)
    ensures
        is_name_order(names, name_order(names)),
    decreases names.len(),
{
    if names.len() > 0 {
        let before = names.drop_last();
        let earlier = name_order(before);
        let item = names.len() - 1;
        let name = names.last();
        lemma_name_order(before);
        lemma_name_place(before, earlier, name);
        let at = name_place(before, earlier, name);
        let order = name_order(names);
        assert forall|k: int| 0 <= k < order.len() implies order[k] == (if k < at {
            earlier[k]
        } else if k == at {
            item
        } else {
            earlier[k - 1]
        }) by {}
        assert forall|k: int| 0 <= k < earlier.len() implies names[#[trigger] earlier[k]]
            == before[earlier[k]] by {}
        assert forall|j: int, k: int|
            #![trigger order[j], order[k]]
            0 <= j < k < order.len() implies order[j] != order[k] && !text_less(
            names[order[k]],
            names[order[j]],
        ) by {
            if j != at && k != at {
                let jj = if j < at { j } else { j - 1 };
                let kk = if k < at { k } else { k - 1 };
                assert(earlier[jj] != earlier[kk]);
            } else if k == at {
                if j < at - 1 {
                    assert(!text_less(before[earlier[at - 1]], before[earlier[j]]));
                    lemma_not_less_transitive(before[earlier[j]], before[earlier[at - 1]], name);
                }
            } else {
                lemma_text_less_total(name, before[earlier[k - 1]]);
            }
        }
    }
}

/// An order lists every index.
pub proof fn lemma_every_place_listed(names: Seq<Seq<char>>, order: Seq<int>, place: int)
    requires
        is_name_order(names, order),
        0 <= place < names.len(),
    ensures
        order.contains(place),
{
    let all = vstd::set_lib::set_int_range(0, names.len() as int);
    vstd::set_lib::lemma_int_range(0, names.len() as int);
    assert(order.no_duplicates());
    order.unique_seq_to_set();
    let found = order.to_set();
    assert forall|i: int| found.contains(i) implies all.contains(i) by {
        let k = choose|k: int| 0 <= k < order.len() && order[k] == i;
        assert(0 <= order[k] < names.len());
    }
    vstd::set_lib::lemma_subset_equality(found, all);
    assert(found.contains(place));
}

/// The order of `names` as indices.
pub fn order_by_name(names: &Vec<String>) -> (order: Vec<usize>)
    ensures
        order@.map_values(|i: usize| i as int) == name_order(texts(names@)),
        forall|k: int| 0 <= k < order@.len() ==> (#[trigger] order@[k]) < names@.len(),
        order@.len() == names@.len(),
{
    let ghost all = texts(names@);
    let ghost as_index = |i: usize| i as int;
    let mut order: Vec<usize> = Vec::new();
    assert(order@.map_values(as_index) =~= name_order(all.take(0)));
    for item in 0..names.len()
        invariant
            all == texts(names@),
            as_index == (|i: usize| i as int),
            order@.map_values(as_index) == name_order(all.take(item as int)),
            order@.len() == item,
            forall|k: int| 0 <= k < order@.len() ==> (#[trigger] order@[k]) < item,
    {
        let ghost sorted = order@.map_values(as_index);
        let ghost upto = all.take(item as int);
        proof {
            assert(all.take(item as int + 1).drop_last() =~= upto);
        }
        let mut at: usize = order.len();
        assert(sorted.take(at as int) =~= sorted);
        while at > 0
            invariant_except_break
                name_place(upto, sorted, all[item as int]) == name_place(
                    upto,
                    sorted.take(at as int),
                    all[item as int],
                ),
            invariant
                all == texts(names@),
                upto == all.take(item as int),
                as_index == (|i: usize| i as int),
                sorted == order@.map_values(as_index),
                at <= order@.len(),
                order@.len() == item,
                item < names@.len(),
                forall|k: int| 0 <= k < order@.len() ==> (#[trigger] order@[k]) < item,
            ensures
                at == name_place(upto, sorted, all[item as int]),
            decreases at,
        {
            let previous: usize = order[at - 1];
            proof {
                assert(sorted[at - 1] == previous);
                assert(sorted.take(at as int).last() == previous);
                assert(sorted.take(at as int).drop_last() =~= sorted.take(at - 1));
                assert(upto[previous as int] == names@[previous as int]@);
            }
            if !str_less(names[item].as_str(), names[previous].as_str()) {
                break;
            }
            at -= 1;
        }
        proof {
            lemma_name_place(upto, sorted, all[item as int]);
        }
        order.insert(at, item);
        assert(order@.map_values(as_index) =~= sorted.insert(at as int, item as int));
    }
    assert(all.take(all.len() as int) =~= all);
    order
}

/// Appends one character. This is `String::push`, which adds the character to
/// the end of the string.
#[verifier::external_body]
fn push_char(out: &mut String, c: char)
    ensures
        final(out)@ == old(out)@.push(c),
{
    out.push(c)
}

/// The string of the given characters.
pub fn from_chars(chars: &Vec<char>) -> (text: String)
    ensures
        text@ == chars@,
{
    let mut text = String::new();
    for i in 0..chars.len()
        invariant
            text@ == chars@.take(i as int),
    {
        push_char(&mut text, chars[i]);
        assert(chars@.take(i as int).push(chars@[i as int]) =~= chars@.take(i as int + 1));
    }
    assert(chars@.take(chars@.len() as int) =~= chars@);
    text
}

/// The pieces of `text` between occurrences of `separator`; always at least one.
pub open spec fn split_on(text: Seq<char>, separator: char) -> Seq<Seq<char>>
    decreases text.len(),
{
    if text.len() == 0 {
        seq![Seq::empty()]
    } else {
        let earlier = split_on(text.drop_last(), separator);
        if text.last() == separator {
            earlier.push(Seq::empty())
        } else {
            earlier.drop_last().push(earlier.last().push(text.last()))
        }
    }
}

pub proof fn lemma_split_nonempty(text: Seq<char>, separator: char)
    ensures
        split_on(text, separator).len() >= 1,
    decreases text.len(),
{
    if text.len() > 0 {
        lemma_split_nonempty(text.drop_last(), separator);
    }
}

/// The characters of each piece of a list.
pub open spec fn pieces(values: Seq<Vec<char>>) -> Seq<Seq<char>> {
    Seq::new(values.len(), |i: int| values[i]@)
}

pub fn split_chars(text: &Vec<char>, separator: char) -> (parts: Vec<Vec<char>>)
    ensures
        pieces(parts@) == split_on(text@, separator),
        parts@.len() >= 1,
{
    let mut parts: Vec<Vec<char>> = Vec::new();
    let mut current: Vec<char> = Vec::new();
    assert(pieces(parts@).push(current@) =~= split_on(text@.take(0), separator));
    for i in 0..text.len()
        invariant
            pieces(parts@).push(current@) == split_on(text@.take(i as int), separator),
    {
        let ghost finished = parts@;
        let ghost open = current@;
        proof {
            assert(text@.take(i as int + 1).drop_last() =~= text@.take(i as int));
            assert(text@.take(i as int + 1).last() == text@[i as int]);
            assert(pieces(finished).push(open).drop_last() =~= pieces(finished));
            assert(pieces(finished).push(open).last() == open);
        }
        if text[i] == separator {
            parts.push(current);
            current = Vec::new();
            assert(pieces(parts@) =~= pieces(finished).push(open));
            assert(current@ =~= Seq::empty());
        } else {
            current.push(text[i]);
        }
    }
    assert(text@.take(text@.len() as int) =~= text@);
    let ghost finished = parts@;
    let ghost open = current@;
    parts.push(current);
    assert(pieces(parts@) =~= pieces(finished).push(open));
    parts
}

/// Whether two character lists are equal.
pub fn chars_equal(left: &Vec<char>, right: &Vec<char>) -> (equal: bool)
    ensures
        equal == (left@ == right@),
{
    if left.len() != right.len() {
        return false;
    }
    for i in 0..left.len()
        invariant
            left@.len() == right@.len(),
            forall|j: int| 0 <= j < i ==> left@[j] == right@[j],
    {
        if left[i] != right[i] {
            return false;
        }
    }
    assert(left@ =~= right@);
    true
}

/// Whether a character list spells `text`.
pub fn chars_are(chars: &Vec<char>, text: &str) -> (equal: bool)
    ensures
        equal == (chars@ == text@),
{
    let expected = to_chars(text);
    chars_equal(chars, &expected)
}

pub open spec fn shown_items(items: Seq<nat>) -> Seq<char>
    decreases items.len(),
{
    if items.len() == 0 {
        Seq::empty()
    } else if items.len() == 1 {
        decimal(items[0])
    } else {
        shown_items(items.drop_last()) + ", "@ + decimal(items.last())
    }
}

/// Numbers as `[a, b, c]`.
pub open spec fn shown_list(items: Seq<nat>) -> Seq<char> {
    "["@ + shown_items(items) + "]"@
}

pub open spec fn naturals(items: Seq<u64>) -> Seq<nat> {
    Seq::new(items.len(), |i: int| items[i] as nat)
}

pub fn push_list(out: &mut String, items: &Vec<u64>)
    ensures
        final(out)@ == old(out)@ + shown_list(naturals(items@)),
{
    out.append("[");
    let ghost start = out@;
    let ghost all = naturals(items@);
    for i in 0..items.len()
        invariant
            all == naturals(items@),
            out@ =~= start + shown_items(all.take(i as int)),
    {
        if i > 0 {
            out.append(", ");
        }
        push_decimal(out, items[i]);
        assert(all.take(i as int + 1).drop_last() =~= all.take(i as int));
    }
    assert(all.take(all.len() as int) =~= all);
    out.append("]");
    assert(out@ =~= old(out)@ + shown_list(all));
}

/// Splitting a text at a separator in it gives the pieces before it and then the
/// pieces behind it.
pub proof fn lemma_split_joined(left: Seq<char>, separator: char, right: Seq<char>)
    ensures
        split_on(left.push(separator) + right, separator) == split_on(left, separator) + split_on(
            right,
            separator,
        ),
    decreases right.len(),
{
    let whole = left.push(separator) + right;
    lemma_split_nonempty(left, separator);
    lemma_split_nonempty(right, separator);
    if right.len() == 0 {
        assert(whole =~= left.push(separator));
        assert(whole.drop_last() =~= left);
    } else {
        let shorter = right.drop_last();
        lemma_split_joined(left, separator, shorter);
        lemma_split_nonempty(shorter, separator);
        assert(whole.drop_last() =~= left.push(separator) + shorter);
        assert(whole.last() == right.last());
        let front = split_on(left, separator);
        let back = split_on(shorter, separator);
        assert((front + back).last() == back.last());
        assert((front + back).drop_last() =~= front + back.drop_last());
        assert(split_on(whole, separator) =~= front + split_on(right, separator));
    }
}

/// A text without the separator is one piece, and no piece holds the separator.
pub proof fn lemma_split_pieces(text: Seq<char>, separator: char)
    ensures
        (forall|i: int| 0 <= i < text.len() ==> #[trigger] text[i] != separator) ==> split_on(
            text,
            separator,
        ) == seq![text],
        forall|k: int|
            0 <= k < split_on(text, separator).len() ==> !(#[trigger] split_on(
                text,
                separator,
            )[k]).contains(separator),
    decreases text.len(),
{
    lemma_split_nonempty(text, separator);
    if text.len() > 0 {
        let shorter = text.drop_last();
        lemma_split_pieces(shorter, separator);
        lemma_split_nonempty(shorter, separator);
        let earlier = split_on(shorter, separator);
        let pieces = split_on(text, separator);
        if forall|i: int| 0 <= i < text.len() ==> #[trigger] text[i] != separator {
            assert forall|i: int| 0 <= i < shorter.len() implies #[trigger] shorter[i]
                != separator by {
                assert(text[i] != separator);
            }
            assert(text[text.len() - 1] != separator);
            assert(shorter.push(text.last()) =~= text);
            assert(pieces =~= seq![text]);
        }
        assert forall|k: int| 0 <= k < pieces.len() implies !(#[trigger] pieces[k]).contains(
            separator,
        ) by {
            if text.last() == separator {
                if k < earlier.len() {
                    assert(pieces[k] == earlier[k]);
                } else {
                    assert(pieces[k] =~= Seq::empty());
                }
            } else if k < earlier.len() - 1 {
                assert(pieces[k] == earlier[k]);
            } else {
                let last = earlier[earlier.len() - 1];
                assert(pieces[k] == last.push(text.last()));
                if pieces[k].contains(separator) {
                    let i = choose|i: int| 0 <= i < pieces[k].len() && pieces[k][i] == separator;
                    assert(last[i] == separator);
                    assert(last.contains(separator));
                }
            }
        }
    } else {
        assert(text =~= Seq::empty());
        assert(split_on(text, separator) =~= seq![text]);
    }
}

/// The number that a hexadecimal digit stands for.
pub open spec fn hex_digit_value(digit: char) -> int {
    if '0' as int <= digit as int <= '9' as int {
        digit as int - '0' as int
    } else {
        digit as int - 'a' as int + 10
    }
}

/// The number that hexadecimal digits stand for.
pub open spec fn hex_value(digits: Seq<char>) -> int
    decreases digits.len(),
{
    if digits.len() == 0 {
        0
    } else {
        16 * hex_value(digits.drop_last()) + hex_digit_value(digits.last())
    }
}

/// The digits are ten decimal ones and six lower-case letters, each standing for its
/// number.
pub proof fn lemma_hex_digit(digit: nat)
    requires
        digit < 16,
    ensures
        hex_digit_value(hex_digit(digit)) == digit,
        is_decimal_digit(hex_digit(digit)) || 'a' as int <= hex_digit(digit) as int <= 'f' as int,
{
}

/// A number's plain hexadecimal notation stands for the number, and does not begin
/// with a zero unless it is one.
pub proof fn lemma_plain_hex(value: nat)
    ensures
        hex_value(plain_hex(value)) == value,
        plain_hex(value).len() >= 1,
        value > 0 ==> plain_hex(value)[0] != '0',
    decreases value,
{
    if value < 16 {
        lemma_hex_digit(value);
        let digits = plain_hex(value);
        assert(digits.drop_last() =~= Seq::empty());
        assert(digits.last() == hex_digit(value));
        assert(hex_value(digits.drop_last()) == 0);
    } else {
        let front = plain_hex(value / 16);
        lemma_plain_hex(value / 16);
        lemma_hex_digit(value % 16);
        assert(plain_hex(value).drop_last() =~= front);
        assert(plain_hex(value)[0] == front[0]);
    }
}

/// A number's notation of a given width has that many digits, and where the number
/// fits it stands for the number.
pub proof fn lemma_hex_width(value: nat, width: nat)
    ensures
        hex(value, width).len() == width,
        value < vstd::arithmetic::power::pow(16, width) ==> hex_value(hex(value, width)) == value,
    decreases width,
{
    vstd::arithmetic::power::lemma_pow0(16);
    if width == 0 {
    } else {
        let front = hex(value / 16, (width - 1) as nat);
        lemma_hex_width(value / 16, (width - 1) as nat);
        lemma_hex_digit(value % 16);
        assert(hex(value, width).drop_last() =~= front);
        reveal(vstd::arithmetic::power::pow);
        let rest = vstd::arithmetic::power::pow(16, (width - 1) as nat);
        assert(vstd::arithmetic::power::pow(16, width) == 16 * rest);
    }
}

} // verus!
