//! Sysfs attributes: one number or one word to a file.

use vstd::prelude::*;

use crate::kernel::{context, failed, told, told_text, ErrorKind, IoError, Told};
use crate::number::{
    a_hex_number_is_what_it_says, a_padded_number_is_something, hex, lemma_numeral_chars,
    parse_unsigned, read_unsigned, NumberFault,
};
use crate::text::{
    a_leading_0x_does_not_matter, cat, chars, drop_0x, glue, is_blank, text, trim, trimmed,
    trimming_takes_off_what_is_around, without_0x,
};

verus! {

/// The number that an attribute prints as hex (`0x10de`).
pub open spec fn attr_number(content: Seq<char>, max: int) -> Result<int, NumberFault> {
    read_unsigned(without_0x(trimmed(content)), 16, max)
}

/// Parse an attribute that prints as hex (`0x10de`).
pub fn parse_attr(content: &str, max: u64) -> (r: Result<u64, NumberFault>)
    ensures
        match r {
            Ok(v) => attr_number(content@, max as int) == Ok::<int, NumberFault>(v as int) && v
                <= max,
            Err(fault) => attr_number(content@, max as int) == Err::<int, NumberFault>(fault),
        },
{
    parse_unsigned(drop_0x(trim(&chars(content))), 16, max)
}

/// The text of an attribute without the white space around it.
pub fn trim_attr(content: &str) -> (r: String)
    ensures
        r@ == trimmed(content@),
{
    text(trim(&chars(content)))
}

/// What reading an attribute that prints as hex comes to.
pub open spec fn attr_hex_end(
    dir: Seq<char>,
    name: Seq<char>,
    content: Result<Seq<char>, Told>,
) -> Result<u32, Told> {
    let place = dir + "/"@ + name;
    match content {
        Err((kind, message)) => Err((kind, "read "@ + place + ": "@ + message)),
        Ok(content) => match attr_number(content, u32::MAX as int) {
            Ok(value) => Ok(value as u32),
            Err(fault) => Err(
                (ErrorKind::InvalidData, "parse "@ + place + ": "@ + fault.text()),
            ),
        },
    }
}

/// Read a sysfs attribute that prints as hex (`0x10de`), given what reading
/// the file came to.
pub fn attr_hex(dir: &str, name: &str, content: Result<String, IoError>) -> (r: Result<u32, IoError>)
    ensures
        match r {
            Ok(value) => attr_hex_end(dir@, name@, told_text(content)) == Ok::<
                u32,
                Told,
            >(value),
            Err(err) => attr_hex_end(dir@, name@, told_text(content)) == Err::<
                u32,
                Told,
            >(told(err)),
        },
{
    let place: String = glue(dir, "/", name);
    match content {
        Err(err) => Err(context(err, &cat("read ", &place))),
        Ok(content) => match parse_attr(&content, 0xffff_ffff) {
            Ok(value) => Ok(value as u32),
            Err(fault) => {
                let mut message: String = glue("parse ", &place, ": ");
                message.append(fault.message());
                Err(failed(ErrorKind::InvalidData, message))
            },
        },
    }
}

// --- What attributes say -----------------------------------------------------

/// A number that is printed in hex is read as that number, with a `0x` before
/// it or not and whatever white space is around it; one that is too large is
/// told so.
pub proof fn a_printed_number_is_read(
    before: Seq<char>,
    value: nat,
    width: int,
    after: Seq<char>,
    max: int,
)
    requires
        is_blank(before),
        is_blank(after),
        max >= 0,
    ensures
        ({
            let end = if value <= max {
                Ok::<int, NumberFault>(value as int)
            } else {
                Err(NumberFault::Overflow)
            };
            &&& attr_number(before + (seq!['0', 'x'] + hex(value as int, width)) + after, max) == end
            &&& attr_number(before + hex(value as int, width) + after, max) == end
        }),
{
    let s = hex(value as int, width);
    let x = seq!['0', 'x'] + s;
    lemma_numeral_chars(value, width, 16, false);
    a_hex_number_is_what_it_says(value, width, max);
    a_padded_number_is_something(value, width);
    assert(48 <= s[0] as int <= 57 || 97 <= s[0] as int <= 102);
    assert(48 <= s[s.len() - 1] as int <= 57 || 97 <= s[s.len() - 1] as int <= 102);
    assert(x.last() == s.last());
    trimming_takes_off_what_is_around(before, s, after);
    trimming_takes_off_what_is_around(before, x, after);
    a_leading_0x_does_not_matter(s);
    if s.len() >= 2 {
        assert(48 <= s[1] as int <= 57 || 97 <= s[1] as int <= 102);
    }
}

/// What an attribute says in white space is no number.
pub proof fn an_empty_attribute_is_no_number(content: Seq<char>, max: int)
    requires
        is_blank(content),
    ensures
        attr_number(content, max) == Err::<int, NumberFault>(NumberFault::Empty),
{
    trimming_takes_off_what_is_around(content, seq![], seq![]);
    assert(content + seq![] + seq![] =~= content);
}

/// What reading an attribute comes to is the number that it prints, the fault
/// of the read, or invalid data.
pub proof fn an_attribute_is_read(
    dir: Seq<char>,
    name: Seq<char>,
    value: nat,
    width: int,
    fault: Told,
)
    ensures
        attr_hex_end(dir, name, Ok(seq!['0', 'x'] + hex(value as int, width) + seq!['\n'])) == if value
            <= 0xffff_ffff {
            Ok::<u32, Told>(value as u32)
        } else {
            Err(
                (
                    ErrorKind::InvalidData,
                    "parse "@ + dir + "/"@ + name + ": "@ + NumberFault::Overflow.text(),
                ),
            )
        },
        attr_hex_end(dir, name, Err(fault)) == Err::<u32, Told>(
            (fault.0, "read "@ + dir + "/"@ + name + ": "@ + fault.1),
        ),
{
    let x = seq!['0', 'x'] + hex(value as int, width);
    a_printed_number_is_read(seq![], value, width, seq!['\n'], u32::MAX as int);
    assert(seq![] + x + seq!['\n'] =~= x + seq!['\n']);
    let place = dir + "/"@ + name;
    assert("parse "@ + place + ": "@ + NumberFault::Overflow.text() =~= "parse "@ + dir + "/"@ + name
        + ": "@ + NumberFault::Overflow.text());
    assert("read "@ + place + ": "@ + fault.1 =~= "read "@ + dir + "/"@ + name + ": "@ + fault.1);
}

} // verus!
