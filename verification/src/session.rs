//! What a session decides: which command a line of input is, and which set a
//! number on the menu stands for.

use crate::root::names_of;
use vstd::prelude::*;

verus! {

/// What a line of input asks for.
#[derive(Clone, Copy, Debug, PartialEq, Eq, Structural)]
pub enum Command {
    /// `exit`, whatever follows it.
    Exit,
    /// `swap` and the number of a set on the menu.
    Swap(i16),
    /// `swap` and one argument that is no number.
    NotANumber,
    /// `swap` with no argument, or with more than one.
    WrongArguments,
    /// Anything else.
    Unknown,
}

/// Whether `c` is one of the ten decimal digits.
pub open spec fn is_digit(c: char) -> bool {
    '0' as int <= c as int <= '9' as int
}

/// The value of a run of decimal digits.
pub open spec fn digits_value(digits: Seq<char>) -> int
    decreases digits.len(),
{
    if digits.len() == 0 {
        0
    } else {
        10 * digits_value(digits.drop_last()) + (digits.last() as int - '0' as int)
    }
}

/// Whether `text` begins with a sign.
pub open spec fn has_sign(text: Seq<char>) -> bool {
    text.len() > 0 && (text[0] == '+' || text[0] == '-')
}

/// The number that `text` is in decimal notation: an optional `+` or `-`,
/// then one digit or more and nothing else. `None` where `text` is not of
/// that form, or is a number that an `i16` cannot hold.
pub open spec fn number_of(text: Seq<char>) -> Option<i16> {
    let digits = if has_sign(text) {
        text.skip(1)
    } else {
        text
    };
    let value = if has_sign(text) && text[0] == '-' {
        -digits_value(digits)
    } else {
        digits_value(digits)
    };
    if digits.len() > 0 && (forall|i: int| 0 <= i < digits.len() ==> is_digit(#[trigger] digits[i]))
        && i16::MIN <= value <= i16::MAX {
        Some(value as i16)
    } else {
        None
    }
}

/// Whether `k` is where the first word of `line` ends: at its first space,
/// or at its end where it holds no space.
pub open spec fn is_word_end(line: Seq<char>, k: int) -> bool {
    &&& 0 <= k <= line.len()
    &&& forall|j: int| 0 <= j < k ==> #[trigger] line[j] != ' '
    &&& k < line.len() ==> line[k] == ' '
}

/// Where the first word of `line` ends.
pub open spec fn word_end(line: Seq<char>) -> int {
    choose|k: int| is_word_end(line, k)
}

/// What `line` asks for. Words are parted by single spaces; the first word
/// is the command.
pub open spec fn command_of(line: Seq<char>) -> Command {
    let end = word_end(line);
    let word = line.take(end);
    let argument = line.skip(end + 1);
    if word == "exit"@ {
        Command::Exit
    } else if word == "swap"@ {
        if end == line.len() || argument.contains(' ') {
            Command::WrongArguments
        } else {
            match number_of(argument) {
                Some(number) => Command::Swap(number),
                None => Command::NotANumber,
            }
        }
    } else {
        Command::Unknown
    }
}

/// The set that `number` stands for on a menu that counts the catalog from
/// one.
pub open spec fn selected(catalog: Seq<Seq<char>>, number: int) -> Option<Seq<char>> {
    if 1 <= number <= catalog.len() {
        Some(catalog[number - 1])
    } else {
        None
    }
}

/// A word ends at one place only.
pub proof fn lemma_word_end(line: Seq<char>, k: int)
    requires
        is_word_end(line, k),
    ensures
        word_end(line) == k,
{
    let c = word_end(line);
    assert(is_word_end(line, c));
    if c < k {
        assert(line[c] != ' ');
    } else if k < c {
        assert(line[k] != ' ');
    }
}

/// `str::parse::<i16>`: the number that `text` is in decimal notation, and
/// nothing where the call returns an error. The call takes an optional sign
/// followed by digits only, and returns an error for the empty text, for any
/// other character, and for a number out of the range of `i16`.
#[verifier::external_body]
fn parse_number(text: &str) -> (number: Option<i16>)
    ensures
        number == number_of(text@),
{
    match text.parse::<i16>() {
        Ok(number) => Some(number),
        Err(_) => None,
    }
}

/// The place of the first space in `line` from `from` on, or the length of
/// `line`.
fn next_space(line: &str, from: usize) -> (k: usize)
    requires
        from <= line@.len(),
    ensures
        from <= k <= line@.len(),
        forall|j: int| from <= j < k ==> #[trigger] line@[j] != ' ',
        k < line@.len() ==> line@[k as int] == ' ',
{
    let len: usize = line.unicode_len();
    let mut k: usize = from;
    while k < len && line.get_char(k) != ' '
        invariant
            len == line@.len(),
            from <= k <= len,
            forall|j: int| from <= j < k ==> #[trigger] line@[j] != ' ',
        decreases len - k,
    {
        k += 1;
    }
    k
}

/// Reads a line of input from which the white space at both ends has been
/// taken off.
pub fn parse_command(line: &str) -> (command: Command)
    ensures
        command == command_of(line@),
{
    let len: usize = line.unicode_len();
    let end: usize = next_space(line, 0);
    proof {
        lemma_word_end(line@, end as int);
    }
    let word = line.substring_char(0, end).to_owned();
    if word == "exit".to_owned() {
        return Command::Exit;
    }
    if word != "swap".to_owned() {
        return Command::Unknown;
    }
    if end == len {
        return Command::WrongArguments;
    }
    let argument = line.substring_char(end + 1, len);
    let stop: usize = next_space(argument, 0);
    if stop < argument.unicode_len() {
        assert(argument@.contains(' ')) by {
            assert(argument@[stop as int] == ' ');
        }
        return Command::WrongArguments;
    }
    match parse_number(argument) {
        Some(number) => Command::Swap(number),
        None => Command::NotANumber,
    }
}

/// The name of the set that `number` stands for on the menu, if it stands
/// for one: the menu counts the catalog from one.
pub fn select_config(catalog: &Vec<String>, number: i16) -> (name: Option<String>)
    ensures
        match name {
            Some(name) => selected(names_of(catalog@), number as int) == Some(name@),
            None => selected(names_of(catalog@), number as int) is None,
        },
{
    if number < 1 {
        return None;
    }
    let place: usize = (number - 1) as usize;
    if place < catalog.len() {
        Some(catalog[place].clone())
    } else {
        None
    }
}

} // verus!
