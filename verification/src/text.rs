//! The text form in which a store is kept on disk: `{key:value,key:value}`,
//! all numbers in decimal.

use std::collections::HashMap;
use vstd::prelude::*;
use vstd::string::StringSliceAdditionalSpecFns;

verus! {

pub const OPEN_BRACE: u8 = 0x7b;

pub const CLOSE_BRACE: u8 = 0x7d;

pub const COMMA: u8 = 0x2c;

pub const COLON: u8 = 0x3a;

pub const PLUS: u8 = 0x2b;

pub const ZERO: u8 = 0x30;

pub open spec fn is_digit(byte: u8) -> bool {
    0x30 <= byte <= 0x39
}

pub open spec fn is_brace(byte: u8) -> bool {
    byte == OPEN_BRACE || byte == CLOSE_BRACE
}

pub open spec fn all_digits(text: Seq<u8>) -> bool {
    forall|i: int| 0 <= i < text.len() ==> is_digit(#[trigger] text[i])
}

/// The number that decimal digits spell.
pub open spec fn digits_value(digits: Seq<u8>) -> nat
    decreases digits.len(),
{
    if digits.len() == 0 {
        0
    } else {
        digits_value(digits.drop_last()) * 10 + (digits.last() - ZERO) as nat
    }
}

/// The text without a plus sign in front.
pub open spec fn unsigned(text: Seq<u8>) -> Seq<u8> {
    if text.len() > 0 && text[0] == PLUS {
        text.subrange(1, text.len() as int)
    } else {
        text
    }
}

/// The number that `text` stands for: digits and nothing else, but for one
/// plus sign that may stand in front, and no more than fits.
pub open spec fn parse_number(text: Seq<u8>) -> Option<u32> {
    let digits = unsigned(text);
    if digits.len() > 0 && all_digits(digits) && digits_value(digits) <= u32::MAX {
        Some(digits_value(digits) as u32)
    } else {
        None
    }
}

/// A longer run of digits spells no smaller a number.
pub proof fn lemma_digits_value_grows(digits: Seq<u8>, k: int)
    requires
        0 <= k <= digits.len(),
        all_digits(digits),
    ensures
        digits_value(digits.take(k)) <= digits_value(digits),
    decreases digits.len() - k,
{
    if k < digits.len() {
        lemma_digits_value_grows(digits, k + 1);
        assert(digits.take(k + 1).drop_last() =~= digits.take(k));
    } else {
        assert(digits.take(k) =~= digits);
    }
}

/// Reads the number that `text[from..to]` stands for.
pub fn read_number(text: &[u8], from: usize, to: usize) -> (number: Option<u32>)
    requires
        from <= to <= text@.len(),
    ensures
        number == parse_number(text@.subrange(from as int, to as int)),
{
    let ghost whole = text@.subrange(from as int, to as int);
    let start: usize = if from < to && text[from] == PLUS {
        from + 1
    } else {
        from
    };
    let ghost digits = text@.subrange(start as int, to as int);
    if start == to {
        return None;
    }
    let mut value: u64 = 0;
    let mut i: usize = start;
    while i < to
        invariant
            start <= i <= to <= text@.len(),
            start < to,
            whole == text@.subrange(from as int, to as int),
            digits == text@.subrange(start as int, to as int),
            digits == unsigned(whole),
            all_digits(digits.take(i - start)),
            value == digits_value(digits.take(i - start)),
            value <= u32::MAX,
        decreases to - i,
    {
        let byte: u8 = text[i];
        if byte < 0x30 || byte > 0x39 {
            assert(!is_digit(digits[i - start]));
            return None;
        }
        let next: u64 = value * 10 + (byte - ZERO) as u64;
        proof {
            let longer = digits.take(i - start + 1);
            assert(longer.drop_last() =~= digits.take(i - start));
        }
        if next > 0xffff_ffff {
            proof {
                if all_digits(digits) {
                    lemma_digits_value_grows(digits, i - start + 1);
                }
            }
            return None;
        }
        value = next;
        i = i + 1;
    }
    assert(digits.take(to - start) =~= digits);
    Some(value as u32)
}

/// The index of the first `mark` in `text` at or after `from`, or the
/// length of `text` where there is none.
pub open spec fn find(text: Seq<u8>, mark: u8, from: int) -> int
    decreases text.len() - from,
{
    if from >= text.len() {
        text.len() as int
    } else if text[from] == mark {
        from
    } else {
        find(text, mark, from + 1)
    }
}

/// The pieces of `text` between one `mark` and the next: one piece more
/// than there are marks.
pub open spec fn split(text: Seq<u8>, mark: u8) -> Seq<Seq<u8>>
    decreases text.len(),
{
    let cut = find(text, mark, 0);
    if 0 <= cut < text.len() {
        seq![text.subrange(0, cut)] + split(text.subrange(cut + 1, text.len() as int), mark)
    } else {
        seq![text]
    }
}

/// The index of the first byte at or after `from` that is no brace.
pub open spec fn first_unbraced(text: Seq<u8>, from: int) -> int
    decreases text.len() - from,
{
    if from >= text.len() {
        text.len() as int
    } else if !is_brace(text[from]) {
        from
    } else {
        first_unbraced(text, from + 1)
    }
}

/// The length of `text[..to]` once the braces at its end are taken off.
pub open spec fn last_unbraced(text: Seq<u8>, to: int) -> int
    decreases to,
{
    if to <= 0 {
        0
    } else if !is_brace(text[to - 1]) {
        to
    } else {
        last_unbraced(text, to - 1)
    }
}

/// The text without the braces at its two ends, however many there are.
pub open spec fn trimmed(text: Seq<u8>) -> Seq<u8> {
    let inner = text.subrange(first_unbraced(text, 0), text.len() as int);
    inner.subrange(0, last_unbraced(inner, inner.len() as int))
}

/// The key and the value of an entry: the numbers before and after its
/// first colon. What follows a second colon is not read.
pub open spec fn parse_entry(entry: Seq<u8>) -> Option<(u32, u32)> {
    let parts = split(entry, COLON);
    if parts.len() < 2 {
        None
    } else {
        match (parse_number(parts[0]), parse_number(parts[1])) {
            (Some(key), Some(value)) => Some((key, value)),
            _ => None,
        }
    }
}

/// The map that the entries give, read first to last: an entry that does
/// not parse is passed over, and a later entry for a key replaces an
/// earlier one.
pub open spec fn collect(entries: Seq<Seq<u8>>) -> Map<u32, u32>
    decreases entries.len(),
{
    if entries.len() == 0 {
        Map::empty()
    } else {
        let earlier = collect(entries.drop_last());
        match parse_entry(entries.last()) {
            Some((key, value)) => earlier.insert(key, value),
            None => earlier,
        }
    }
}

/// The map that a stored text stands for.
pub open spec fn parse_map(text: Seq<u8>) -> Map<u32, u32> {
    collect(split(trimmed(text), COMMA))
}

/// `find` gives the one index before which no mark stands and at which
/// one does, or the text ends.
pub proof fn lemma_find_is(text: Seq<u8>, mark: u8, from: int, at: int)
    requires
        0 <= from <= at <= text.len(),
        forall|i: int| from <= i < at ==> text[i] != mark,
        at < text.len() ==> text[at] == mark,
    ensures
        find(text, mark, from) == at,
    decreases at - from,
{
    if from < at {
        lemma_find_is(text, mark, from + 1, at);
    }
}

/// `first_unbraced` gives the one index before which only braces stand
/// and at which none does, or the text ends.
pub proof fn lemma_first_unbraced_is(text: Seq<u8>, from: int, at: int)
    requires
        0 <= from <= at <= text.len(),
        forall|i: int| from <= i < at ==> is_brace(text[i]),
        at < text.len() ==> !is_brace(text[at]),
    ensures
        first_unbraced(text, from) == at,
    decreases at - from,
{
    if from < at {
        lemma_first_unbraced_is(text, from + 1, at);
    }
}

/// `last_unbraced` gives the one length after which only braces stand
/// and before which none does, or the text begins.
pub proof fn lemma_last_unbraced_is(text: Seq<u8>, to: int, at: int)
    requires
        0 <= at <= to <= text.len(),
        forall|i: int| at <= i < to ==> is_brace(text[i]),
        at > 0 ==> !is_brace(text[at - 1]),
    ensures
        last_unbraced(text, to) == at,
    decreases to - at,
{
    if at < to {
        lemma_last_unbraced_is(text, to - 1, at);
    }
}

/// Finds the first `mark` in `text[from..to]`, or `to`.
pub fn seek(text: &[u8], mark: u8, from: usize, to: usize) -> (at: usize)
    requires
        from <= to <= text@.len(),
    ensures
        from <= at <= to,
        at - from == find(text@.subrange(from as int, to as int), mark, 0),
{
    let mut at: usize = from;
    while at < to && text[at] != mark
        invariant
            from <= at <= to <= text@.len(),
            forall|i: int| from <= i < at ==> text@[i] != mark,
        decreases to - at,
    {
        at = at + 1;
    }
    proof {
        lemma_find_is(text@.subrange(from as int, to as int), mark, 0, at - from);
    }
    at
}

/// Finds where `text` is left once the braces at its two ends are taken off.
pub fn trim(text: &[u8]) -> (bounds: (usize, usize))
    ensures
        bounds.0 <= bounds.1 <= text@.len(),
        text@.subrange(bounds.0 as int, bounds.1 as int) == trimmed(text@),
{
    let mut from: usize = 0;
    while from < text.len() && (text[from] == OPEN_BRACE || text[from] == CLOSE_BRACE)
        invariant
            from <= text@.len(),
            forall|i: int| 0 <= i < from ==> is_brace(text@[i]),
        decreases text@.len() - from,
    {
        from = from + 1;
    }
    let mut to: usize = text.len();
    while to > from && (text[to - 1] == OPEN_BRACE || text[to - 1] == CLOSE_BRACE)
        invariant
            from <= to <= text@.len(),
            forall|i: int| to <= i < text@.len() ==> is_brace(text@[i]),
        decreases to,
    {
        to = to - 1;
    }
    proof {
        lemma_first_unbraced_is(text@, 0, from as int);
        let inner = text@.subrange(from as int, text@.len() as int);
        lemma_last_unbraced_is(inner, inner.len() as int, to - from);
    }
    (from, to)
}

/// Reads the entry `text[from..to]`.
pub fn read_entry(text: &[u8], from: usize, to: usize) -> (entry: Option<(u32, u32)>)
    requires
        from <= to <= text@.len(),
    ensures
        entry == parse_entry(text@.subrange(from as int, to as int)),
{
    let ghost whole = text@.subrange(from as int, to as int);
    let colon: usize = seek(text, COLON, from, to);
    if colon == to {
        return None;
    }
    let ghost rest = whole.subrange(colon - from + 1, whole.len() as int);
    let end: usize = seek(text, COLON, colon + 1, to);
    proof {
        assert(rest =~= text@.subrange(colon + 1, to as int));
        assert(rest.subrange(0, end - colon - 1) =~= text@.subrange(colon + 1, end as int));
        let parts = split(whole, COLON);
        let later = split(rest, COLON);
        assert(later[0] == rest.subrange(0, end - colon - 1));
        assert(parts[0] == text@.subrange(from as int, colon as int));
    }
    match (read_number(text, from, colon), read_number(text, colon + 1, end)) {
        (Some(key), Some(value)) => Some((key, value)),
        _ => None,
    }
}

/// Reads the map that a stored text stands for.
pub fn read_map(text: &[u8]) -> (map: HashMap<u32, u32>)
    ensures
        map@ == parse_map(text@),
{
    let (from, to) = trim(text);
    let ghost body = text@.subrange(from as int, to as int);
    let ghost mut done: Seq<Seq<u8>> = Seq::empty();
    let mut map: HashMap<u32, u32> = HashMap::new();
    let mut at: usize = from;
    loop
        invariant_except_break
            split(body, COMMA) == done + split(text@.subrange(at as int, to as int), COMMA),
        invariant
            from <= at <= to <= text@.len(),
            map@ == collect(done),
        ensures
            map@ == collect(split(body, COMMA)),
        decreases to - at,
    {
        let end: usize = seek(text, COMMA, at, to);
        let ghost rest = text@.subrange(at as int, to as int);
        let ghost entry = text@.subrange(at as int, end as int);
        if let Some((key, value)) = read_entry(text, at, end) {
            map.insert(key, value);
        }
        proof {
            assert(done.push(entry).drop_last() =~= done);
            if end == to {
                assert(done + seq![rest] =~= done.push(entry));
            } else {
                assert(rest.subrange(0, end - at) =~= entry);
                assert(rest.subrange(end - at + 1, rest.len() as int) =~= text@.subrange(
                    end + 1,
                    to as int,
                ));
            }
            done = done.push(entry);
        }
        if end == to {
            break ;
        }
        at = end + 1;
    }
    map
}

/// The decimal digits of a number.
pub open spec fn decimal(number: nat) -> Seq<u8>
    decreases number,
{
    if number < 10 {
        seq![(ZERO + number) as u8]
    } else {
        decimal(number / 10).push((ZERO + number % 10) as u8)
    }
}

/// Appends the decimal digits of `number`.
pub fn write_number(out: &mut Vec<u8>, number: u32)
    ensures
        final(out)@ == old(out)@ + decimal(number as nat),
    decreases number,
{
    if number >= 10 {
        write_number(out, number / 10);
    }
    let digit: u8 = (number % 10) as u8;
    out.push(ZERO + digit);
}

/// Appends the bytes of `word`.
pub fn write_word(out: &mut Vec<u8>, word: &str)
    ensures
        final(out)@ == old(out)@ + word.spec_bytes(),
{
    let bytes: &[u8] = word.as_bytes();
    let mut i: usize = 0;
    while i < bytes.len()
        invariant
            i <= bytes@.len(),
            bytes@ == word.spec_bytes(),
            out@ == old(out)@ + bytes@.take(i as int),
        decreases bytes@.len() - i,
    {
        out.push(bytes[i]);
        i = i + 1;
    }
}

/// What is written as a number is read as that number.
pub proof fn lemma_decimal_is_read_back(number: nat)
    ensures
        decimal(number).len() > 0,
        all_digits(decimal(number)),
        digits_value(decimal(number)) == number,
        number <= u32::MAX ==> parse_number(decimal(number)) == Some(number as u32),
    decreases number,
{
    let digits = decimal(number);
    if number >= 10 {
        lemma_decimal_is_read_back(number / 10);
        assert(digits.drop_last() =~= decimal(number / 10));
    }
    assert(digits_value(digits) == digits_value(digits.drop_last()) * 10 + (digits.last()
        - ZERO) as nat);
}

/// An entry as it is stored: the key, a colon, the value.
pub open spec fn entry_text(key: u32, value: u32) -> Seq<u8> {
    decimal(key as nat) + seq![COLON] + decimal(value as nat)
}

/// The parts with a comma between each two.
pub open spec fn joined(parts: Seq<Seq<u8>>) -> Seq<u8>
    decreases parts.len(),
{
    if parts.len() == 0 {
        Seq::empty()
    } else if parts.len() == 1 {
        parts[0]
    } else {
        joined(parts.drop_last()) + seq![COMMA] + parts.last()
    }
}

/// The body between an opening and a closing brace.
pub open spec fn braced(body: Seq<u8>) -> Seq<u8> {
    seq![OPEN_BRACE] + body + seq![CLOSE_BRACE]
}

/// The entries as they are stored, in the order given.
pub open spec fn map_text(entries: Seq<(u32, u32)>) -> Seq<u8> {
    braced(joined(entries.map_values(|entry: (u32, u32)| entry_text(entry.0, entry.1))))
}

/// Whether `text` is `map` as it is stored, its entries in some order.
pub open spec fn stores(text: Seq<u8>, map: Map<u32, u32>) -> bool {
    exists|order: Seq<(u32, u32)>|
        #[trigger] map_text(order) == text && order.no_duplicates() && order.to_set()
            == map.kv_pairs()
}

/// Writes the entries as they are stored, in the order given.
pub fn write_map(entries: &Vec<(u32, u32)>) -> (text: Vec<u8>)
    ensures
        text@ == map_text(entries@),
{
    let ghost parts = entries@.map_values(|entry: (u32, u32)| entry_text(entry.0, entry.1));
    let mut text: Vec<u8> = Vec::new();
    text.push(OPEN_BRACE);
    let mut i: usize = 0;
    while i < entries.len()
        invariant
            i <= entries@.len(),
            parts == entries@.map_values(|entry: (u32, u32)| entry_text(entry.0, entry.1)),
            text@ == seq![OPEN_BRACE] + joined(parts.take(i as int)),
        decreases entries@.len() - i,
    {
        if i > 0 {
            text.push(COMMA);
        }
        let (key, value) = entries[i];
        write_number(&mut text, key);
        text.push(COLON);
        write_number(&mut text, value);
        proof {
            let longer = parts.take(i + 1);
            assert(longer.drop_last() =~= parts.take(i as int));
        }
        i = i + 1;
    }
    text.push(CLOSE_BRACE);
    assert(parts.take(entries@.len() as int) =~= parts);
    text
}

} // verus!
