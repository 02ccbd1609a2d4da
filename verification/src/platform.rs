//! What stands between the terminal and the game: the key alphabet, the
//! mapping from a read character to a key, and a buffered line reader over
//! standard input. Reading raw characters and configuring the terminal stay
//! outside the library.

use std::io::BufRead;

use vstd::prelude::*;

verus! {

/// A pressed key, one per letter; anything else reads as `Unknown`.
#[derive(Clone, Copy, PartialEq, Eq, Structural, Debug)]
pub enum Key {
    A,
    B,
    C,
    D,
    E,
    F,
    G,
    H,
    I,
    J,
    K,
    L,
    M,
    N,
    O,
    P,
    Q,
    R,
    S,
    T,
    U,
    V,
    W,
    X,
    Y,
    Z,
    Unknown,
}

/// The key a character stands for: letters map case-insensitively, and
/// every other character reads as `Unknown`.
pub open spec fn spec_translate_input(c: char) -> Key {
    if c == 'a' || c == 'A' {
        Key::A
    } else if c == 'b' || c == 'B' {
        Key::B
    } else if c == 'c' || c == 'C' {
        Key::C
    } else if c == 'd' || c == 'D' {
        Key::D
    } else if c == 'e' || c == 'E' {
        Key::E
    } else if c == 'f' || c == 'F' {
        Key::F
    } else if c == 'g' || c == 'G' {
        Key::G
    } else if c == 'h' || c == 'H' {
        Key::H
    } else if c == 'i' || c == 'I' {
        Key::I
    } else if c == 'j' || c == 'J' {
        Key::J
    } else if c == 'k' || c == 'K' {
        Key::K
    } else if c == 'l' || c == 'L' {
        Key::L
    } else if c == 'm' || c == 'M' {
        Key::M
    } else if c == 'n' || c == 'N' {
        Key::N
    } else if c == 'o' || c == 'O' {
        Key::O
    } else if c == 'p' || c == 'P' {
        Key::P
    } else if c == 'q' || c == 'Q' {
        Key::Q
    } else if c == 'r' || c == 'R' {
        Key::R
    } else if c == 's' || c == 'S' {
        Key::S
    } else if c == 't' || c == 'T' {
        Key::T
    } else if c == 'u' || c == 'U' {
        Key::U
    } else if c == 'v' || c == 'V' {
        Key::V
    } else if c == 'w' || c == 'W' {
        Key::W
    } else if c == 'x' || c == 'X' {
        Key::X
    } else if c == 'y' || c == 'Y' {
        Key::Y
    } else if c == 'z' || c == 'Z' {
        Key::Z
    } else {
        Key::Unknown
    }
}

pub fn translate_input(c: char) -> (k: Key)
    ensures
        k == spec_translate_input(c),
{
    match c {
        'a' | 'A' => Key::A,
        'b' | 'B' => Key::B,
        'c' | 'C' => Key::C,
        'd' | 'D' => Key::D,
        'e' | 'E' => Key::E,
        'f' | 'F' => Key::F,
        'g' | 'G' => Key::G,
        'h' | 'H' => Key::H,
        'i' | 'I' => Key::I,
        'j' | 'J' => Key::J,
        'k' | 'K' => Key::K,
        'l' | 'L' => Key::L,
        'm' | 'M' => Key::M,
        'n' | 'N' => Key::N,
        'o' | 'O' => Key::O,
        'p' | 'P' => Key::P,
        'q' | 'Q' => Key::Q,
        'r' | 'R' => Key::R,
        's' | 'S' => Key::S,
        't' | 'T' => Key::T,
        'u' | 'U' => Key::U,
        'v' | 'V' => Key::V,
        'w' | 'W' => Key::W,
        'x' | 'X' => Key::X,
        'y' | 'Y' => Key::Y,
        'z' | 'Z' => Key::Z,
        _ => Key::Unknown,
    }
}

#[verifier::external_type_specification]
#[verifier::external_body]
pub struct ExStdin(std::io::Stdin);

#[verifier::external_type_specification]
#[verifier::external_body]
pub struct ExIoError(std::io::Error);

#[verifier::external_type_specification]
#[verifier::external_body]
#[verifier::reject_recursive_types(R)]
pub struct ExBufReader<R: ?Sized>(std::io::BufReader<R>);

/// A buffered reader over standard input, for line-oriented front ends.
pub struct NonblockingBufReader {
    buffered: std::io::BufReader<std::io::Stdin>,
}

/// Relies on `std::io::BufReader::new`: wraps the input in a buffered
/// reader with a default buffer.
#[verifier::external_body]
fn buffer_stdin(underlying: std::io::Stdin) -> (r: NonblockingBufReader) {
    NonblockingBufReader { buffered: std::io::BufReader::new(underlying) }
}

impl NonblockingBufReader {
    /// Takes ownership of standard input.
    pub fn new(underlying: std::io::Stdin) -> (r: NonblockingBufReader) {
        buffer_stdin(underlying)
    }

    /// Reads one line: what arrives, line break included, or the error the
    /// stream gave. What comes back depends on the stream alone.
    pub fn read_line(&mut self) -> (r: Result<String, std::io::Error>) {
        let mut line = String::new();
        match self.raw_read_line(&mut line) {
            Ok(_) => Ok(line),
            Err(e) => Err(e),
        }
    }

    /// Relies on `std::io::BufReader::read_line`: reads until a line break
    /// and appends what it read, the break included, to `line`, keeping
    /// what `line` already held.
    #[verifier::external_body]
    fn raw_read_line(&mut self, line: &mut String) -> (r: Result<usize, std::io::Error>)
        ensures
            r is Ok ==> final(line)@.len() >= old(line)@.len() && final(line)@.take(
                old(line)@.len() as int,
            ) == old(line)@,
    {
        self.buffered.read_line(line)
    }
}

} // verus!
