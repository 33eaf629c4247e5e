//! The byte classes of the line grammar, and the longest run of a class at
//! the head of a byte string.

use vstd::prelude::*;

verus! {

pub const NUL: u8 = 0x00;

pub const LF: u8 = 0x0A;

pub const CR: u8 = 0x0D;

pub const SPACE: u8 = 0x20;

pub const BANG: u8 = 0x21;

pub const HYPHEN: u8 = 0x2D;

pub const DOT: u8 = 0x2E;

pub const COLON: u8 = 0x3A;

pub const AT: u8 = 0x40;

/// `nom::is_alphabetic` answers whether a byte is an ASCII letter, `A`-`Z`
/// or `a`-`z`.
pub assume_specification[ nom::is_alphabetic ](chr: u8) -> (r: bool)
    ensures
        r == is_letter(chr),
;

/// `nom::is_digit` answers whether a byte is an ASCII digit, `0`-`9`.
pub assume_specification[ nom::is_digit ](chr: u8) -> (r: bool)
    ensures
        r == is_decimal(chr),
;

/// An ASCII letter.
pub open spec fn is_letter(c: u8) -> bool {
    (0x41 <= c <= 0x5A) || (0x61 <= c <= 0x7A)
}

/// An ASCII decimal digit.
pub open spec fn is_decimal(c: u8) -> bool {
    0x30 <= c <= 0x39
}

/// One of ``[ ] \ ` _ ^ { | }``.
pub open spec fn special_byte(c: u8) -> bool {
    c == 0x5B || c == 0x5D || c == 0x5C || c == 0x60 || c == 0x5F || c == 0x5E || c == 0x7B
        || c == 0x7C || c == 0x7D
}

/// A byte of a nickname: a letter, a digit, a special or a hyphen.
pub open spec fn nickname_byte(c: u8) -> bool {
    is_letter(c) || special_byte(c) || is_decimal(c) || c == HYPHEN
}

/// A byte of a user name: anything but NUL, CR, LF, space and `@`.
pub open spec fn username_byte(c: u8) -> bool {
    c != NUL && c != CR && c != LF && c != SPACE && c != AT
}

/// A byte of a host: a letter, a digit, a dot, a colon or a hyphen. This
/// covers host names and the usual notations of IPv4 and IPv6 addresses.
pub open spec fn host_byte(c: u8) -> bool {
    is_letter(c) || is_decimal(c) || c == DOT || c == COLON || c == HYPHEN
}

/// A byte of a middle parameter: anything but NUL, CR, LF and space.
pub open spec fn middle_byte(c: u8) -> bool {
    c != NUL && c != CR && c != LF && c != SPACE
}

/// A byte of a trailing parameter: anything but NUL, CR and LF.
pub open spec fn trailing_byte(c: u8) -> bool {
    c == SPACE || middle_byte(c)
}

/// Whether `c` can stand in a host.
pub fn is_host_char(c: u8) -> (r: bool)
    ensures
        r == host_byte(c),
{
    nom::is_alphabetic(c) || nom::is_digit(c) || c == DOT || c == COLON || c == HYPHEN
}

/// Whether `c` can stand in a middle parameter.
pub fn not_space(c: u8) -> (r: bool)
    ensures
        r == middle_byte(c),
{
    (c != NUL) && (c != CR) && (c != LF) && (c != SPACE)
}

/// Whether `c` is one of the special characters of nicknames.
pub fn is_special(c: u8) -> (r: bool)
    ensures
        r == special_byte(c),
{
    (c == 0x5B) || (c == 0x5D) || (c == 0x5C) || (c == 0x60) || (c == 0x5F) || (c == 0x5E) || (c
        == 0x7B) || (c == 0x7C) || (c == 0x7D)
}

/// Whether `c` can stand in a trailing parameter.
pub fn trailing_char(c: u8) -> (r: bool)
    ensures
        r == trailing_byte(c),
{
    (c == SPACE) || not_space(c)
}

/// Whether `c` can stand in a nickname.
pub fn is_nickname_char(c: u8) -> (r: bool)
    ensures
        r == nickname_byte(c),
{
    nom::is_alphabetic(c) || is_special(c) || nom::is_digit(c) || c == HYPHEN
}

/// Whether `c` can stand in a user name.
pub fn is_username_char(c: u8) -> (r: bool)
    ensures
        r == username_byte(c),
{
    (c != NUL) && (c != CR) && (c != LF) && (c != SPACE) && (c != AT)
}

/// The classes of bytes that the grammar takes runs of.
#[derive(Debug, Clone, Copy, PartialEq, Eq)]
pub enum ByteClass {
    Letter,
    Digit,
    Nickname,
    Username,
    Host,
    Middle,
    Trailing,
}

impl ByteClass {
    /// Whether `c` belongs to the class.
    pub open spec fn has(self, c: u8) -> bool {
        match self {
            ByteClass::Letter => is_letter(c),
            ByteClass::Digit => is_decimal(c),
            ByteClass::Nickname => nickname_byte(c),
            ByteClass::Username => username_byte(c),
            ByteClass::Host => host_byte(c),
            ByteClass::Middle => middle_byte(c),
            ByteClass::Trailing => trailing_byte(c),
        }
    }

    /// Whether `c` belongs to the class.
    pub fn contains(self, c: u8) -> (r: bool)
        ensures
            r == self.has(c),
    {
        match self {
            ByteClass::Letter => nom::is_alphabetic(c),
            ByteClass::Digit => nom::is_digit(c),
            ByteClass::Nickname => is_nickname_char(c),
            ByteClass::Username => is_username_char(c),
            ByteClass::Host => is_host_char(c),
            ByteClass::Middle => not_space(c),
            ByteClass::Trailing => trailing_char(c),
        }
    }
}

/// Whether every byte of `s` belongs to `class`.
pub open spec fn all_of(s: Seq<u8>, class: ByteClass) -> bool {
    forall|i: int| 0 <= i < s.len() ==> class.has(#[trigger] s[i])
}

/// The length of the longest prefix of `s` whose bytes all belong to
/// `class`.
pub open spec fn run(s: Seq<u8>, class: ByteClass) -> nat
    decreases s.len(),
{
    if s.len() > 0 && class.has(s[0]) {
        1 + run(s.drop_first(), class)
    } else {
        0
    }
}

/// A run is a prefix of the class, and the byte behind it, if there is one,
/// is not of the class.
pub proof fn lemma_run_bounds(s: Seq<u8>, class: ByteClass)
    ensures
        run(s, class) <= s.len(),
        all_of(s.take(run(s, class) as int), class),
        run(s, class) < s.len() ==> !class.has(s[run(s, class) as int]),
    decreases s.len(),
{
    if s.len() > 0 && class.has(s[0]) {
        let t = s.drop_first();
        lemma_run_bounds(t, class);
        let n = run(t, class) as int;
        assert forall|i: int| 0 <= i < n + 1 implies class.has(#[trigger] s.take(n + 1)[i]) by {
            if i > 0 {
                assert(s.take(n + 1)[i] == t.take(n)[i - 1]);
            }
        }
        if n + 1 < s.len() {
            assert(s[n + 1] == t[n]);
        }
    }
}

/// The run is the only length of which `lemma_run_bounds` holds.
pub proof fn lemma_run_is(s: Seq<u8>, class: ByteClass, n: int)
    requires
        0 <= n <= s.len(),
        forall|i: int| 0 <= i < n ==> class.has(#[trigger] s[i]),
        n < s.len() ==> !class.has(s[n]),
    ensures
        run(s, class) == n,
    decreases s.len(),
{
    if n > 0 {
        let t = s.drop_first();
        assert forall|i: int| 0 <= i < n - 1 implies class.has(#[trigger] t[i]) by {
            assert(t[i] == s[i + 1]);
        }
        if n - 1 < t.len() {
            assert(t[n - 1] == s[n]);
        }
        lemma_run_is(t, class, n - 1);
    }
}

/// Measures the longest prefix of `input` made of bytes of `class`.
pub fn run_length(input: &[u8], class: ByteClass) -> (n: usize)
    ensures
        n == run(input@, class),
        n <= input@.len(),
{
    let mut n: usize = 0;
    while n < input.len() && class.contains(input[n])
        invariant
            n <= input@.len(),
            forall|i: int| 0 <= i < n ==> class.has(#[trigger] input@[i]),
        decreases input@.len() - n,
    {
        n = n + 1;
    }
    proof {
        lemma_run_is(input@, class, n as int);
    }
    n
}

} // verus!
