//! Frames as text: the escape sequences that make a terminal carry out the
//! drawing commands.

use crate::display::{DrawOp, Ink};
use vstd::prelude::*;
use vstd::string::StringExecFns;

verus! {

/// The character that starts an escape sequence.
pub const ESCAPE: char = '\x1B';

/// The decimal digit of a number below ten.
pub open spec fn digit_glyph(digit: nat) -> char {
    if digit == 0 {
        '0'
    } else if digit == 1 {
        '1'
    } else if digit == 2 {
        '2'
    } else if digit == 3 {
        '3'
    } else if digit == 4 {
        '4'
    } else if digit == 5 {
        '5'
    } else if digit == 6 {
        '6'
    } else if digit == 7 {
        '7'
    } else if digit == 8 {
        '8'
    } else {
        '9'
    }
}

/// A number in decimal digits, without leading zeros.
pub open spec fn decimal(number: nat) -> Seq<char>
    decreases number,
{
    if number < 10 {
        seq![digit_glyph(number)]
    } else {
        decimal(number / 10).push(digit_glyph(number % 10))
    }
}

/// The sequence that moves the cursor to column `x` of row `y`: the row
/// comes first.
pub open spec fn goto_sequence(x: u16, y: u16) -> Seq<char> {
    seq![ESCAPE, '['] + decimal(y as nat) + seq![';'] + decimal(x as nat) + seq!['H']
}

/// The sequence that selects an ink.
pub open spec fn fg_sequence(ink: Ink) -> Seq<char> {
    match ink {
        Ink::Default => seq![ESCAPE, '[', '3', '9', 'm'],
        Ink::Blue => seq![ESCAPE, '[', '3', '8', ';', '5', ';', '4', 'm'],
        Ink::Red => seq![ESCAPE, '[', '3', '8', ';', '5', ';', '1', 'm'],
        Ink::Yellow => seq![ESCAPE, '[', '3', '8', ';', '5', ';', '3', 'm'],
    }
}

/// The sequence that blanks the whole display.
pub open spec fn clear_sequence() -> Seq<char> {
    seq![ESCAPE, '[', '2', 'J']
}

/// The text of one command.
pub open spec fn op_sequence(op: DrawOp) -> Seq<char> {
    match op {
        DrawOp::Clear => clear_sequence(),
        DrawOp::Goto { x, y } => goto_sequence(x, y),
        DrawOp::Fg(ink) => fg_sequence(ink),
        DrawOp::Put(glyph) => seq![glyph],
    }
}

/// The text of a frame: the texts of its commands in order.
pub open spec fn frame_sequence(frame: Seq<DrawOp>) -> Seq<char>
    decreases frame.len(),
{
    if frame.len() == 0 {
        Seq::empty()
    } else {
        frame_sequence(frame.drop_last()) + op_sequence(frame.last())
    }
}

/// Whether a command can be put into text: a move to column zero of row
/// zero cannot.
pub open spec fn op_encodable(op: DrawOp) -> bool {
    op != (DrawOp::Goto { x: 0, y: 0 })
}

/// Whether every command of a frame can be put into text.
pub open spec fn encodable(frame: Seq<DrawOp>) -> bool {
    forall|i: int| 0 <= i < frame.len() ==> op_encodable(#[trigger] frame[i])
}

/// Formats `termion::cursor::Goto(x, y)`. The crate writes the escape
/// character, `[`, the row, `;`, the column and `H`, both numbers in
/// decimal, and refuses the move to column zero of row zero.
#[verifier::external_body]
fn goto_text(x: u16, y: u16) -> (text: String)
    requires
        !(x == 0 && y == 0),
    ensures
        text@ == goto_sequence(x, y),
{
    format!("{}", termion::cursor::Goto(x, y))
}

/// Formats `termion::color::Fg` of the crate's `Reset`, which the crate
/// writes as `ESC [ 3 9 m`.
#[verifier::external_body]
fn fg_reset_text() -> (text: String)
    ensures
        text@ == fg_sequence(Ink::Default),
{
    format!("{}", termion::color::Fg(termion::color::Reset))
}

/// Formats `termion::color::Fg` of the crate's `Blue`, which the crate
/// writes as `ESC [ 3 8 ; 5 ; 4 m`.
#[verifier::external_body]
fn fg_blue_text() -> (text: String)
    ensures
        text@ == fg_sequence(Ink::Blue),
{
    format!("{}", termion::color::Fg(termion::color::Blue))
}

/// Formats `termion::color::Fg` of the crate's `Red`, which the crate
/// writes as `ESC [ 3 8 ; 5 ; 1 m`.
#[verifier::external_body]
fn fg_red_text() -> (text: String)
    ensures
        text@ == fg_sequence(Ink::Red),
{
    format!("{}", termion::color::Fg(termion::color::Red))
}

/// Formats `termion::color::Fg` of the crate's `Yellow`, which the crate
/// writes as `ESC [ 3 8 ; 5 ; 3 m`.
#[verifier::external_body]
fn fg_yellow_text() -> (text: String)
    ensures
        text@ == fg_sequence(Ink::Yellow),
{
    format!("{}", termion::color::Fg(termion::color::Yellow))
}

/// The text that selects an ink.
fn fg_text(ink: Ink) -> (text: String)
    ensures
        text@ == fg_sequence(ink),
{
    match ink {
        Ink::Default => fg_reset_text(),
        Ink::Blue => fg_blue_text(),
        Ink::Red => fg_red_text(),
        Ink::Yellow => fg_yellow_text(),
    }
}

/// Formats `termion::clear::All`, which the crate writes as `ESC [ 2 J`.
#[verifier::external_body]
fn clear_text() -> (text: String)
    ensures
        text@ == clear_sequence(),
{
    format!("{}", termion::clear::All)
}

/// `String::push`: appends one character to the text.
#[verifier::external_body]
fn push_glyph(text: &mut String, glyph: char)
    ensures
        final(text)@ == old(text)@.push(glyph),
{
    text.push(glyph)
}

/// Whether a command can be put into text.
pub fn is_op_encodable(op: &DrawOp) -> (yes: bool)
    ensures
        yes == op_encodable(*op),
{
    match op {
        DrawOp::Goto { x, y } => !(*x == 0 && *y == 0),
        _ => true,
    }
}

/// Appends the text of one command.
fn push_op(text: &mut String, op: DrawOp)
    requires
        op_encodable(op),
    ensures
        final(text)@ == old(text)@ + op_sequence(op),
{
    match op {
        DrawOp::Clear => {
            let piece = clear_text();
            text.append(piece.as_str());
        },
        DrawOp::Goto { x, y } => {
            let piece = goto_text(x, y);
            text.append(piece.as_str());
        },
        DrawOp::Fg(ink) => {
            let piece = fg_text(ink);
            text.append(piece.as_str());
        },
        DrawOp::Put(glyph) => {
            push_glyph(text, glyph);
            proof {
                assert(text@ =~= old(text)@ + seq![glyph]);
            }
        },
    }
}

/// Puts a frame into the text that a terminal carries it out from. There
/// is no text for a frame that moves the cursor to column zero of row zero.
pub fn encode(frame: &Vec<DrawOp>) -> (text: Option<String>)
    ensures
        text is Some <==> encodable(frame@),
        text matches Some(t) ==> t@ == frame_sequence(frame@),
{
    let mut text = String::new();
    let mut done: usize = 0;
    proof {
        assert(frame@.take(0) =~= Seq::<DrawOp>::empty());
    }
    while done < frame.len()
        invariant
            done <= frame.len(),
            encodable(frame@.take(done as int)),
            text@ == frame_sequence(frame@.take(done as int)),
        decreases frame.len() - done,
    {
        let op = frame[done];
        if !is_op_encodable(&op) {
            return None;
        }
        push_op(&mut text, op);
        proof {
            let longer = frame@.take(done + 1);
            assert(longer.drop_last() =~= frame@.take(done as int));
            assert(longer.last() == op);
            assert forall|i: int| 0 <= i < longer.len() implies op_encodable(
                #[trigger] longer[i],
            ) by {
                if i < done {
                    assert(frame@.take(done as int)[i] == longer[i]);
                }
            }
        }
        done += 1;
    }
    proof {
        assert(frame@.take(done as int) =~= frame@);
    }
    Some(text)
}

} // verus!
