//! The fleet model: the document that is passed between the front end, the
//! master and the nodes, and the small closed enumerations it is built from.

use crate::error::{Error, ErrorKind, ErrorView};
use vstd::prelude::*;
use vstd::string::StrSliceExecFns;

pub mod device;
pub mod model;
pub mod rtu;

verus! {

/// Whether a device is switched on or off.
#[derive(Clone, Copy, Debug, PartialEq, Eq, Structural)]
pub enum State {
    On,
    Off,
}

impl Default for State {
    /// A device that does not say otherwise is off.
    fn default() -> (state: Self)
        ensures
            state == State::Off,
    {
        State::Off
    }
}

/// What a node does with the model it receives: push the requested state to
/// the hardware first (`Write`), or only read the hardware back (`Read`).
#[derive(Clone, Copy, Debug, PartialEq, Eq, Structural)]
pub enum Mode {
    Write,
    Read,
}

impl Default for Mode {
    /// A model that does not say otherwise only reads.
    fn default() -> (mode: Self)
        ensures
            mode == Mode::Read,
    {
        Mode::Read
    }
}

/// The kind of controller a device hangs on, which selects its driver.
#[derive(Clone, Copy, Debug, PartialEq, Eq, Structural)]
pub enum Driver {
    /// An STR1XX relay board.
    STR1,
    /// An OMEGA CN7500 PID controller.
    Omega,
}

/// Whether `c` is white space: a character with the Unicode property
/// `White_Space`.
pub open spec fn is_whitespace(c: char) -> bool {
    let code = c as u32;
    ||| 0x09 <= code <= 0x0D
    ||| code == 0x20
    ||| code == 0x85
    ||| code == 0xA0
    ||| code == 0x1680
    ||| 0x2000 <= code <= 0x200A
    ||| code == 0x2028
    ||| code == 0x2029
    ||| code == 0x202F
    ||| code == 0x205F
    ||| code == 0x3000
}

/// `text` without the white space it starts with.
pub open spec fn trim_start(text: Seq<char>) -> Seq<char>
    decreases text.len(),
{
    if text.len() > 0 && is_whitespace(text.first()) {
        trim_start(text.drop_first())
    } else {
        text
    }
}

/// `text` without the white space it ends with.
pub open spec fn trim_end(text: Seq<char>) -> Seq<char>
    decreases text.len(),
{
    if text.len() > 0 && is_whitespace(text.last()) {
        trim_end(text.drop_last())
    } else {
        text
    }
}

/// `text` without the white space around it.
pub open spec fn trimmed(text: Seq<char>) -> Seq<char> {
    trim_end(trim_start(text))
}

fn is_space(c: char) -> (space: bool)
    ensures
        space == is_whitespace(c),
{
    let code: u32 = c as u32;
    (0x09 <= code && code <= 0x0D) || code == 0x20 || code == 0x85 || code == 0xA0 || code
        == 0x1680 || (0x2000 <= code && code <= 0x200A) || code == 0x2028 || code == 0x2029 || code
        == 0x202F || code == 0x205F || code == 0x3000
}

/// The identity of a node, from the contents of the record that the node
/// keeps it in: the contents without the white space around them, so that
/// the line break that ends a one-line record is no part of the identity.
pub fn get_rtu_id(contents: &str) -> (identity: String)
    ensures
        identity@ == trimmed(contents@),
{
    let length = contents.unicode_len();
    let mut start: usize = 0;
    assert(contents@.skip(0) =~= contents@);
    while start < length && is_space(contents.get_char(start))
        invariant
            start <= length,
            length == contents@.len(),
            trim_start(contents@) == trim_start(contents@.skip(start as int)),
        decreases length - start,
    {
        assert(contents@.skip(start as int).drop_first() =~= contents@.skip(start as int + 1));
        start = start + 1;
    }
    let ghost rest = contents@.skip(start as int);
    assert(trim_start(contents@) == rest);
    let mut end: usize = length;
    assert(contents@.subrange(start as int, end as int) =~= rest);
    while end > start && is_space(contents.get_char(end - 1))
        invariant
            start <= end <= length,
            length == contents@.len(),
            trim_end(rest) == trim_end(contents@.subrange(start as int, end as int)),
        decreases end,
    {
        assert(contents@.subrange(start as int, end as int).drop_last() =~= contents@.subrange(
            start as int,
            end as int - 1,
        ));
        end = end - 1;
    }
    contents.substring_char(start, end).to_owned()
}

/// The identity of this node from what reading its record gave: the
/// contents without the white space around them, or, where the record could
/// not be read, an identity error that carries the reason.
pub fn local_identity(record: Result<String, String>) -> (identity: Result<String, Error>)
    ensures
        match record {
            Ok(contents) => identity matches Ok(id) && id@ == trimmed(contents@),
            Err(reason) => identity matches Err(error) && error@ == (ErrorView {
                kind: ErrorKind::Identity,
                node: Seq::empty(),
                device: None,
                detail: reason@,
            }),
        },
{
    match record {
        Ok(contents) => Ok(get_rtu_id(contents.as_str())),
        Err(reason) => Err(
            Error { kind: ErrorKind::Identity, node: String::new(), device: None, detail: reason },
        ),
    }
}

} // verus!
