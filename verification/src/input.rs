//! The keyboard: from the bytes that were waiting to the key pressed last,
//! and what that key means in the lobby and in play.

use crate::game::Direction;
use termion::event::{parse_event, Event, Key};
use vstd::prelude::*;
use vstd::slice::slice_subrange;

verus! {

/// A key as far as the game tells keys apart.
#[derive(Clone, Copy, PartialEq, Eq, Debug, Structural)]
pub enum KeyPress {
    Up,
    Down,
    Left,
    Right,
    /// A character key; the enter key is the line feed.
    Char(char),
    /// Any other key, and a report of the mouse.
    Other,
}

/// The byte that starts an escape sequence.
pub const ESC: u8 = 0x1B;

/// `[`, which after the escape byte starts a control sequence.
pub const BRACKET: u8 = 0x5B;

/// `M`, which starts a report of the mouse or ends one.
pub const MOUSE: u8 = 0x4D;

/// `m`, which ends a report of the mouse.
pub const MOUSE_RELEASE: u8 = 0x6D;

/// `<`, which starts a report of the mouse.
pub const MOUSE_EXTENDED: u8 = 0x3C;

/// `~`, which ends the sequence of a numbered key.
pub const TILDE: u8 = 0x7E;

/// `;`, which parts the numbers of a control sequence.
pub const SEMICOLON: u8 = 0x3B;

/// `+`, the sign that a number may begin with.
pub const PLUS: u8 = 0x2B;

/// The largest number in a report of the mouse.
pub const MOUSE_LIMIT: u32 = 0xFFFF;

/// The largest number in the sequence of a numbered key.
pub const KEY_LIMIT: u32 = 0xFF;

/// Whether a byte is a decimal digit.
pub open spec fn is_digit(byte: u8) -> bool {
    0x30 <= byte <= 0x39
}

/// Whether a byte can end a control sequence.
pub open spec fn is_final(byte: u8) -> bool {
    64 <= byte <= 126
}

/// Whether a byte ends a report of the mouse that `<` has started.
pub open spec fn is_mouse_end(byte: u8) -> bool {
    byte == MOUSE || byte == MOUSE_RELEASE
}

/// The index of the first byte at or after `from` that can end a control
/// sequence, or the length of `bytes` where there is none.
pub open spec fn final_index(bytes: Seq<u8>, from: int) -> int
    decreases bytes.len() - from,
{
    if from < 0 || from >= bytes.len() {
        bytes.len() as int
    } else if is_final(bytes[from]) {
        from
    } else {
        final_index(bytes, from + 1)
    }
}

/// The index of the first byte at or after `from` that ends a report of
/// the mouse, or the length of `bytes` where there is none.
pub open spec fn mouse_end_index(bytes: Seq<u8>, from: int) -> int
    decreases bytes.len() - from,
{
    if from < 0 || from >= bytes.len() {
        bytes.len() as int
    } else if is_mouse_end(bytes[from]) {
        from
    } else {
        mouse_end_index(bytes, from + 1)
    }
}

/// The index of the first `;` at or after `from` and before `to`, or `to`
/// where there is none: the end of the field that starts at `from`.
pub open spec fn field_end(bytes: Seq<u8>, from: int, to: int) -> int
    decreases to - from,
{
    if from < 0 || from >= to || from >= bytes.len() {
        to
    } else if bytes[from] == SEMICOLON {
        from
    } else {
        field_end(bytes, from + 1, to)
    }
}

/// Whether every byte is a decimal digit.
pub open spec fn all_digits(bytes: Seq<u8>) -> bool {
    forall|i: int| 0 <= i < bytes.len() ==> is_digit(#[trigger] bytes[i])
}

/// The number that decimal digits stand for.
pub open spec fn digits_value(digits: Seq<u8>) -> nat
    decreases digits.len(),
{
    if digits.len() == 0 {
        0
    } else {
        digits_value(digits.drop_last()) * 10 + (digits.last() - 0x30) as nat
    }
}

/// The digits of a field: the field without the sign that it may begin
/// with.
pub open spec fn digits_of(field: Seq<u8>) -> Seq<u8> {
    if field.len() > 0 && field[0] == PLUS {
        field.skip(1)
    } else {
        field
    }
}

/// Whether a field reads as a number of at most `limit`: at least one
/// decimal digit, before the digits at most one `+`, and nothing else.
pub open spec fn is_number(field: Seq<u8>, limit: nat) -> bool {
    &&& digits_of(field).len() > 0
    &&& all_digits(digits_of(field))
    &&& digits_value(digits_of(field)) <= limit
}

/// Whether every field between `from` and `to` reads as a number of at
/// most `limit`. Fields are parted by `;`.
pub open spec fn numbers_only(bytes: Seq<u8>, from: int, to: int, limit: nat) -> bool
    decreases to - from,
{
    let end = field_end(bytes, from, to);
    &&& is_number(bytes.subrange(from, end), limit)
    &&& from <= end < to ==> numbers_only(bytes, end + 1, to, limit)
}

/// Whether there are at least `count` fields between `from` and `to` and
/// the first `count` of them read as numbers of at most `limit`.
pub open spec fn starts_with_numbers(
    bytes: Seq<u8>,
    from: int,
    to: int,
    count: nat,
    limit: nat,
) -> bool
    decreases count,
{
    if count == 0 {
        true
    } else {
        let end = field_end(bytes, from, to);
        &&& is_number(bytes.subrange(from, end), limit)
        &&& count > 1 ==> end < to && starts_with_numbers(
            bytes,
            end + 1,
            to,
            (count - 1) as nat,
            limit,
        )
    }
}

/// Whether the sequence that starts with `first` and goes on in `rest` is
/// one that the parser is handed: every sequence but those on which the
/// parser cannot go on. Those are, after the escape byte and `[`:
/// - a report of the mouse after `M` with fewer than three bytes, or with
///   a first byte from 128 to 159;
/// - a report of the mouse after `<` without its end, or in which the
///   bytes before the end are no UTF-8 or do not start with three numbers
///   up to 65535;
/// - a sequence that starts with a digit and has no final byte, or ends in
///   `M` without holding at least three numbers up to 65535 and nothing
///   but such numbers, or ends in `~` without holding nothing but numbers
///   up to 255.
pub open spec fn parser_accepts(first: u8, rest: Seq<u8>) -> bool {
    if first != ESC || rest.len() < 2 || rest[0] != BRACKET {
        true
    } else if rest[1] == MOUSE {
        rest.len() >= 5 && !(128 <= rest[2] <= 159)
    } else if rest[1] == MOUSE_EXTENDED {
        let end = mouse_end_index(rest, 2);
        &&& end < rest.len()
        &&& vstd::utf8::valid_utf8(rest.subrange(2, end))
        &&& starts_with_numbers(rest, 2, end, 3, MOUSE_LIMIT as nat)
    } else if !is_digit(rest[1]) {
        true
    } else {
        let end = final_index(rest, 2);
        &&& end < rest.len()
        &&& rest[end] == MOUSE ==> numbers_only(rest, 1, end, MOUSE_LIMIT as nat)
            && starts_with_numbers(rest, 1, end, 3, MOUSE_LIMIT as nat)
        &&& rest[end] == TILDE ==> numbers_only(rest, 1, end, KEY_LIMIT as nat)
    }
}

/// Where in `rest` a sequence that the parser is not handed ends: the
/// index of its last byte, or the length of `rest` where the bytes end
/// before the sequence does. A report of the mouse after `M` is three
/// bytes long, one after `<` goes up to the first `m` or `M`, a sequence
/// that starts with a digit up to the first final byte.
pub open spec fn sequence_end(rest: Seq<u8>) -> int {
    if rest.len() < 2 {
        rest.len() as int
    } else if rest[1] == MOUSE {
        if rest.len() >= 5 {
            4
        } else {
            rest.len() as int
        }
    } else if rest[1] == MOUSE_EXTENDED {
        mouse_end_index(rest, 2)
    } else {
        final_index(rest, 2)
    }
}

/// What `termion::event::parse_event` makes of `first` and of the bytes
/// that follow it: the key, if the bytes are one, and how many of the
/// following bytes it has left unread.
pub uninterp spec fn parse_outcome(first: u8, rest: Seq<u8>) -> (Option<KeyPress>, nat);

/// Calls `termion::event::parse_event` on `first` and on an iterator over
/// `rest`. The result is the key that the crate has parsed, told apart as
/// far as `KeyPress` does, or nothing where the crate reports an error;
/// with it comes the number of bytes of `rest` that the crate has not
/// taken from the iterator, which is never more than `rest` holds. On the
/// sequences that `parser_accepts` leaves out the crate panics: it
/// unwraps a byte that is not there, a text that is no UTF-8 or a number
/// that does not parse, indexes a number that is not there, or overflows
/// on the first byte of a report.
#[verifier::external_body]
fn parse_one(first: u8, rest: &[u8]) -> (parsed: (Option<KeyPress>, usize))
    requires
        parser_accepts(first, rest@),
    ensures
        parsed.0 == parse_outcome(first, rest@).0,
        parsed.1 == parse_outcome(first, rest@).1,
        parsed.1 <= rest@.len(),
{
    let mut following = rest.iter().map(|byte| Ok(*byte));
    let key = match parse_event(first, &mut following) {
        Ok(Event::Key(Key::Up)) => Some(KeyPress::Up),
        Ok(Event::Key(Key::Down)) => Some(KeyPress::Down),
        Ok(Event::Key(Key::Left)) => Some(KeyPress::Left),
        Ok(Event::Key(Key::Right)) => Some(KeyPress::Right),
        Ok(Event::Key(Key::Char(c))) => Some(KeyPress::Char(c)),
        Ok(_) => Some(KeyPress::Other),
        Err(_) => None,
    };
    (key, following.len())
}

/// Calls `std::str::from_utf8`, which gives a text exactly where the bytes
/// are UTF-8.
#[verifier::external_body]
fn is_utf8(bytes: &[u8]) -> (yes: bool)
    ensures
        yes == vstd::utf8::valid_utf8(bytes@),
{
    match std::str::from_utf8(bytes) {
        Ok(_) => true,
        Err(_) => false,
    }
}

/// The index of the first byte at or after `from` that can end a control
/// sequence, or the length of `bytes` where there is none.
fn find_final(bytes: &[u8], from: usize) -> (index: usize)
    requires
        from <= bytes@.len(),
    ensures
        index == final_index(bytes@, from as int),
        from <= index <= bytes@.len(),
{
    let mut index: usize = from;
    while index < bytes.len() && !(64 <= bytes[index] && bytes[index] <= 126)
        invariant
            from <= index <= bytes@.len(),
            final_index(bytes@, index as int) == final_index(bytes@, from as int),
        decreases bytes@.len() - index,
    {
        index += 1;
    }
    index
}

/// The index of the first byte at or after `from` that ends a report of
/// the mouse, or the length of `bytes` where there is none.
fn find_mouse_end(bytes: &[u8], from: usize) -> (index: usize)
    requires
        from <= bytes@.len(),
    ensures
        index == mouse_end_index(bytes@, from as int),
        from <= index <= bytes@.len(),
{
    let mut index: usize = from;
    while index < bytes.len() && !(bytes[index] == MOUSE || bytes[index] == MOUSE_RELEASE)
        invariant
            from <= index <= bytes@.len(),
            mouse_end_index(bytes@, index as int) == mouse_end_index(bytes@, from as int),
        decreases bytes@.len() - index,
    {
        index += 1;
    }
    index
}

/// The end of the field that starts at `from`: the index of the first `;`
/// before `to`, or `to`.
fn find_field_end(bytes: &[u8], from: usize, to: usize) -> (index: usize)
    requires
        from <= to <= bytes@.len(),
    ensures
        index == field_end(bytes@, from as int, to as int),
        from <= index <= to,
{
    let mut index: usize = from;
    while index < to && bytes[index] != SEMICOLON
        invariant
            from <= index <= to <= bytes@.len(),
            field_end(bytes@, index as int, to as int) == field_end(bytes@, from as int, to as int),
        decreases to - index,
    {
        index += 1;
    }
    index
}

/// Whether the field between `from` and `to` reads as a number of at most
/// `limit`.
fn is_number_at(bytes: &[u8], from: usize, to: usize, limit: u32) -> (yes: bool)
    requires
        from <= to <= bytes@.len(),
        limit <= MOUSE_LIMIT,
    ensures
        yes == is_number(bytes@.subrange(from as int, to as int), limit as nat),
{
    let start: usize = if from < to && bytes[from] == PLUS {
        from + 1
    } else {
        from
    };
    let ghost digits = bytes@.subrange(start as int, to as int);
    proof {
        assert(digits =~= digits_of(bytes@.subrange(from as int, to as int)));
    }
    if start == to {
        return false;
    }
    let mut value: u32 = 0;
    let mut at: usize = start;
    proof {
        assert(digits.take(0) =~= Seq::<u8>::empty());
    }
    while at < to
        invariant
            start <= at <= to <= bytes@.len(),
            limit <= MOUSE_LIMIT,
            digits == bytes@.subrange(start as int, to as int),
            digits == digits_of(bytes@.subrange(from as int, to as int)),
            all_digits(digits.take(at - start)),
            value == (if digits_value(digits.take(at - start)) <= limit {
                digits_value(digits.take(at - start))
            } else {
                (limit + 1) as nat
            }),
        decreases to - at,
    {
        let byte = bytes[at];
        if !(0x30 <= byte && byte <= 0x39) {
            proof {
                assert(!is_digit(digits[at - start]));
            }
            return false;
        }
        let grown: u32 = value * 10 + (byte - 0x30) as u32;
        proof {
            let longer = digits.take(at - start + 1);
            assert(longer.drop_last() =~= digits.take(at - start));
            assert(longer.last() == byte);
            assert forall|i: int| 0 <= i < longer.len() implies is_digit(#[trigger] longer[i]) by {
                if i < at - start {
                    assert(digits.take(at - start)[i] == longer[i]);
                }
            }
        }
        value = if grown > limit {
            limit + 1
        } else {
            grown
        };
        at += 1;
    }
    proof {
        assert(digits.take(to - start) =~= digits);
    }
    value <= limit
}

/// Whether every field between `from` and `to` reads as a number of at
/// most `limit`.
fn are_numbers_only(bytes: &[u8], from: usize, to: usize, limit: u32) -> (yes: bool)
    requires
        from <= to <= bytes@.len(),
        limit <= MOUSE_LIMIT,
    ensures
        yes == numbers_only(bytes@, from as int, to as int, limit as nat),
{
    let mut start: usize = from;
    loop
        invariant
            from <= start <= to <= bytes@.len(),
            limit <= MOUSE_LIMIT,
            numbers_only(bytes@, start as int, to as int, limit as nat) == numbers_only(
                bytes@,
                from as int,
                to as int,
                limit as nat,
            ),
        decreases to - start,
    {
        let end = find_field_end(bytes, start, to);
        if !is_number_at(bytes, start, end, limit) {
            return false;
        }
        if end >= to {
            return true;
        }
        start = end + 1;
    }
}

/// Whether there are at least `count` fields between `from` and `to` and
/// the first `count` of them read as numbers of at most `limit`.
fn do_numbers_start(bytes: &[u8], from: usize, to: usize, count: usize, limit: u32) -> (yes: bool)
    requires
        from <= to <= bytes@.len(),
        limit <= MOUSE_LIMIT,
    ensures
        yes == starts_with_numbers(bytes@, from as int, to as int, count as nat, limit as nat),
{
    let mut start: usize = from;
    let mut left: usize = count;
    while left > 0
        invariant
            from <= start <= to <= bytes@.len(),
            limit <= MOUSE_LIMIT,
            starts_with_numbers(bytes@, start as int, to as int, left as nat, limit as nat)
                == starts_with_numbers(
                bytes@,
                from as int,
                to as int,
                count as nat,
                limit as nat,
            ),
        decreases left,
    {
        let end = find_field_end(bytes, start, to);
        if !is_number_at(bytes, start, end, limit) {
            return false;
        }
        if left == 1 {
            return true;
        }
        if end >= to {
            return false;
        }
        start = end + 1;
        left -= 1;
    }
    true
}

/// Whether the sequence that starts with `first` and goes on in `rest` is
/// one that the parser is handed.
pub fn accepts(first: u8, rest: &[u8]) -> (yes: bool)
    ensures
        yes == parser_accepts(first, rest@),
{
    if first != ESC || rest.len() < 2 || rest[0] != BRACKET {
        return true;
    }
    let lead = rest[1];
    if lead == MOUSE {
        return rest.len() >= 5 && !(128 <= rest[2] && rest[2] <= 159);
    }
    if lead == MOUSE_EXTENDED {
        let end = find_mouse_end(rest, 2);
        return end < rest.len() && is_utf8(slice_subrange(rest, 2, end)) && do_numbers_start(
            rest,
            2,
            end,
            3,
            MOUSE_LIMIT,
        );
    }
    if !(0x30 <= lead && lead <= 0x39) {
        return true;
    }
    let end = find_final(rest, 2);
    if end >= rest.len() {
        return false;
    }
    let last = rest[end];
    if last == MOUSE {
        return are_numbers_only(rest, 1, end, MOUSE_LIMIT) && do_numbers_start(
            rest,
            1,
            end,
            3,
            MOUSE_LIMIT,
        );
    }
    if last == TILDE {
        return are_numbers_only(rest, 1, end, KEY_LIMIT);
    }
    true
}

/// Where in `rest` a sequence that the parser is not handed ends: the
/// index of its last byte, or the length of `rest` where the bytes end
/// before the sequence does.
pub fn find_sequence_end(rest: &[u8]) -> (end: usize)
    ensures
        end == sequence_end(rest@),
        end <= rest@.len(),
{
    if rest.len() < 2 {
        rest.len()
    } else if rest[1] == MOUSE {
        if rest.len() >= 5 {
            4
        } else {
            rest.len()
        }
    } else if rest[1] == MOUSE_EXTENDED {
        find_mouse_end(rest, 2)
    } else {
        find_final(rest, 2)
    }
}

/// The key that counts after a sequence was parsed: the parsed key if the
/// sequence was one, else the key seen before it.
pub fn later_key(seen: Option<KeyPress>, parsed: Option<KeyPress>) -> (key: Option<KeyPress>)
    ensures
        key == (if parsed is Some {
            parsed
        } else {
            seen
        }),
{
    match parsed {
        Some(_) => parsed,
        None => seen,
    }
}

/// The key pressed last among `bytes`, given that `seen` was the last one
/// before them. The bytes are parsed one sequence after the other. A
/// sequence that is no key is skipped, and so is one that the parser is
/// not handed, up to its end. Only where the bytes end before such a
/// sequence does, the parsing ends there.
pub open spec fn latest_after(bytes: Seq<u8>, seen: Option<KeyPress>) -> Option<KeyPress>
    decreases bytes.len(),
{
    if bytes.len() == 0 {
        seen
    } else if !parser_accepts(bytes[0], bytes.skip(1)) {
        let end = sequence_end(bytes.skip(1));
        if 0 <= end < bytes.len() - 1 {
            latest_after(bytes.skip(end + 2), seen)
        } else {
            seen
        }
    } else {
        let outcome = parse_outcome(bytes[0], bytes.skip(1));
        if outcome.1 >= bytes.len() {
            seen
        } else {
            latest_after(
                bytes.skip(bytes.len() - outcome.1),
                if outcome.0 is Some {
                    outcome.0
                } else {
                    seen
                },
            )
        }
    }
}

/// The key pressed last among the bytes that were waiting, if there is one.
pub open spec fn latest_event(bytes: Seq<u8>) -> Option<KeyPress> {
    latest_after(bytes, None)
}

/// Drains the bytes that were waiting and returns the key pressed last;
/// the keys before it are dropped. A sequence that is no key is skipped,
/// and so is one that the parser is not handed. Only a sequence of that
/// kind that the end of the bytes cuts off ends the drain.
pub fn poll_latest(bytes: &[u8]) -> (key: Option<KeyPress>)
    ensures
        key == latest_event(bytes@),
{
    let mut seen: Option<KeyPress> = None;
    let mut at: usize = 0;
    proof {
        assert(bytes@.skip(0) =~= bytes@);
    }
    while at < bytes.len()
        invariant
            at <= bytes@.len(),
            latest_after(bytes@.skip(at as int), seen) == latest_event(bytes@),
        decreases bytes@.len() - at,
    {
        let first = bytes[at];
        let rest = slice_subrange(bytes, at + 1, bytes.len());
        let ghost here = bytes@.skip(at as int);
        proof {
            assert(rest@ =~= here.skip(1));
            assert(here[0] == first);
        }
        if accepts(first, rest) {
            let parsed = parse_one(first, rest);
            seen = later_key(seen, parsed.0);
            proof {
                assert(here.skip(here.len() - parsed.1) =~= bytes@.skip(bytes@.len() - parsed.1));
            }
            at = bytes.len() - parsed.1;
        } else {
            let end = find_sequence_end(rest);
            if end >= rest.len() {
                return seen;
            }
            proof {
                assert(here.skip(end + 2) =~= bytes@.skip(at + end + 2));
            }
            at = at + end + 2;
        }
    }
    seen
}

/// The direction after a key: an arrow key gives its direction, any other
/// key and no key leave the direction as it is.
pub open spec fn steered(direction: Direction, key: Option<KeyPress>) -> Direction {
    match key {
        Some(KeyPress::Up) => Direction::Up,
        Some(KeyPress::Down) => Direction::Down,
        Some(KeyPress::Left) => Direction::Left,
        Some(KeyPress::Right) => Direction::Right,
        _ => direction,
    }
}

/// Whether a key is the quit key.
pub open spec fn quits(key: Option<KeyPress>) -> bool {
    key == Some(KeyPress::Char('q'))
}

/// Whether a key asks to start the game before the lobby is full: only the
/// enter key does.
pub open spec fn confirms(key: Option<KeyPress>) -> bool {
    key == Some(KeyPress::Char('\n'))
}

/// The direction after a key.
pub fn steer(direction: Direction, key: Option<KeyPress>) -> (next: Direction)
    ensures
        next == steered(direction, key),
{
    match key {
        Some(KeyPress::Up) => Direction::Up,
        Some(KeyPress::Down) => Direction::Down,
        Some(KeyPress::Left) => Direction::Left,
        Some(KeyPress::Right) => Direction::Right,
        _ => direction,
    }
}

/// Whether a key is the quit key.
pub fn is_quit(key: Option<KeyPress>) -> (yes: bool)
    ensures
        yes == quits(key),
{
    match key {
        Some(KeyPress::Char(c)) => c == 'q',
        _ => false,
    }
}

/// Whether a key asks to start the game before the lobby is full.
pub fn is_confirm(key: Option<KeyPress>) -> (yes: bool)
    ensures
        yes == confirms(key),
{
    match key {
        Some(KeyPress::Char(c)) => c == '\n',
        _ => false,
    }
}

/// Without bytes there is no key.
pub proof fn lemma_no_bytes_no_key()
    ensures
        latest_event(Seq::empty()) is None,
{
}

/// A key that was seen counts only until a later one is parsed: the key
/// pressed last is the last one among the bytes, and the one seen before
/// them where they hold none.
pub proof fn lemma_later_key_wins(bytes: Seq<u8>, seen: Option<KeyPress>)
    ensures
        latest_after(bytes, seen) == (if latest_event(bytes) is Some {
            latest_event(bytes)
        } else {
            seen
        }),
    decreases bytes.len(),
{
    if bytes.len() > 0 {
        if parser_accepts(bytes[0], bytes.skip(1)) {
            let outcome = parse_outcome(bytes[0], bytes.skip(1));
            if outcome.1 < bytes.len() {
                let rest = bytes.skip(bytes.len() - outcome.1);
                lemma_later_key_wins(rest, if outcome.0 is Some {
                    outcome.0
                } else {
                    seen
                });
                lemma_later_key_wins(rest, if outcome.0 is Some {
                    outcome.0
                } else {
                    None
                });
            }
        } else {
            let end = sequence_end(bytes.skip(1));
            if 0 <= end < bytes.len() - 1 {
                lemma_later_key_wins(bytes.skip(end + 2), seen);
                lemma_later_key_wins(bytes.skip(end + 2), None);
            }
        }
    }
}

/// Polling again without new bytes changes nothing: no key leaves the
/// direction as it is and quits nothing.
pub proof fn lemma_idle_poll_changes_nothing(direction: Direction)
    ensures
        steered(direction, latest_event(Seq::empty())) == direction,
        !quits(latest_event(Seq::empty())),
        !confirms(latest_event(Seq::empty())),
{
}

/// A key steers once: the same key a second time leaves the direction
/// where the first press has put it.
pub proof fn lemma_steering_twice_is_once(direction: Direction, key: Option<KeyPress>)
    ensures
        steered(steered(direction, key), key) == steered(direction, key),
{
}

} // verus!
