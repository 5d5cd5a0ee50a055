//! Splitting text into identifiers, integers and operators.

use vstd::prelude::*;
use vstd::std_specs::iter::IteratorSpec;
use vstd::string::StrSliceExecFns;

verus! {

/// The characters that are operators.
pub const OPERATORS: &'static str = "()[],=.";

/// Whether a character has the Unicode property `Alphabetic`.
pub uninterp spec fn is_alphabetic(c: char) -> bool;

/// Whether a character has one of the Unicode general categories for
/// numbers.
pub uninterp spec fn is_numeric(c: char) -> bool;

/// Whether a character has the Unicode property `White_Space`.
pub uninterp spec fn is_whitespace(c: char) -> bool;

/// Whether a character is alphabetic or numeric.
pub open spec fn is_alphanumeric(c: char) -> bool {
    is_alphabetic(c) || is_numeric(c)
}

/// The value of a character as a digit in the given radix: `0` to `9`, then
/// the letters of either case from ten on, as far as the radix reaches.
pub open spec fn digit_of(c: char, radix: u32) -> Option<u32> {
    let value: int = if '0' <= c <= '9' {
        c as u32 - '0' as u32
    } else if 'a' <= c <= 'z' {
        c as u32 - 'a' as u32 + 10
    } else if 'A' <= c <= 'Z' {
        c as u32 - 'A' as u32 + 10
    } else {
        36
    };
    if value < radix {
        Some(value as u32)
    } else {
        None
    }
}

/// Whether a character is a decimal digit.
pub open spec fn is_digit(c: char) -> bool {
    digit_of(c, 10) is Some
}

/// Whether a character is an operator.
pub open spec fn is_operator(c: char) -> bool {
    OPERATORS@.contains(c)
}

/// `char::is_alphabetic` tells whether a character has the Unicode property
/// `Alphabetic`; the property is named, not spelled out.
pub assume_specification[ char::is_alphabetic ](c: char) -> (b: bool)
    ensures
        b == is_alphabetic(c),
;

/// `char::is_alphanumeric` is true of the characters that are alphabetic or
/// numeric.
pub assume_specification[ char::is_alphanumeric ](c: char) -> (b: bool)
    ensures
        b == (is_alphabetic(c) || is_numeric(c)),
;

/// `char::is_whitespace` tells whether a character has the Unicode property
/// `White_Space`; the property is named, not spelled out.
pub assume_specification[ char::is_whitespace ](c: char) -> (b: bool)
    ensures
        b == is_whitespace(c),
;

/// `char::to_digit` gives the value of a character as a digit in a radix
/// from 2 to 36, and nothing for any other character.
pub assume_specification[ char::to_digit ](c: char, radix: u32) -> (r: Option<u32>)
    requires
        2 <= radix <= 36,
    ensures
        r == digit_of(c, radix),
;

/// `char::is_digit` tells whether a character is a digit in a radix from 2
/// to 36.
pub assume_specification[ char::is_digit ](c: char, radix: u32) -> (b: bool)
    requires
        2 <= radix <= 36,
    ensures
        b == (digit_of(c, radix) is Some),
;

/// `String::push` appends one character.
pub assume_specification[ String::push ](s: &mut String, c: char)
    ensures
        final(s)@ == old(s)@.push(c),
;

/// A token of the input.
#[derive(Debug, Clone)]
pub enum Item<'a> {
    Error(&'a str),
    Identifier(String),
    Operator(char),
    Integer(u32),
}

/// What a token says, apart from how its text is stored.
pub enum Lexeme {
    Error(Seq<char>),
    Identifier(Seq<char>),
    Operator(char),
    Integer(u32),
}

impl<'a> View for Item<'a> {
    type V = Lexeme;

    open spec fn view(&self) -> Lexeme {
        match self {
            Item::Error(msg) => Lexeme::Error(msg@),
            Item::Identifier(name) => Lexeme::Identifier(name@),
            Item::Operator(c) => Lexeme::Operator(*c),
            Item::Integer(n) => Lexeme::Integer(*n),
        }
    }
}

/// The text that `Debug` gives for a token: the name of its kind and, in
/// round brackets, what it holds, written as a literal.
pub uninterp spec fn debug_text(item: Lexeme) -> Seq<char>;

impl<'a> Item<'a> {
    /// The token as text.
    ///
    /// Calls `format!` with the derived `Debug` of the token. Not proved:
    /// that the text depends on nothing but what the token holds, which is
    /// all that the contract says of it by giving it a name.
    #[verifier::external_body]
    pub fn to_string(&self) -> (text: String)
        ensures
            text@ == debug_text(self@),
    {
        format!("{:?}", self)
    }
}

/// A position in the input: line and column, both counted from one.
#[derive(Debug, Clone, Copy)]
pub struct Pos {
    pub line: u32,
    pub col: u32,
}

/// The character for a decimal digit.
pub open spec fn digit_char(d: nat) -> char {
    ('0' as u8 + d) as char
}

/// The decimal numeral of a number, without leading zeros.
pub open spec fn decimal(n: nat) -> Seq<char>
    decreases n,
{
    if n < 10 {
        seq![digit_char(n)]
    } else {
        decimal(n / 10).push(digit_char(n % 10))
    }
}

impl Pos {
    /// The position as text.
    ///
    /// Calls `format!`. Not proved: that it writes the words of the format
    /// string as they stand and each of the two numbers as its decimal
    /// numeral.
    #[verifier::external_body]
    pub fn to_string(&self) -> (text: String)
        ensures
            text@ == "line "@ + decimal(self.line as nat) + " col "@ + decimal(self.col as nat),
    {
        format!("line {} col {}", self.line, self.col)
    }
}

/// A place in the input: the index of a character with its line and column.
pub struct Place {
    pub index: nat,
    pub line: nat,
    pub col: nat,
}

/// A token found in the input, the position of its first character, and the
/// place where scanning goes on, if it does.
pub struct Scan {
    pub item: Lexeme,
    pub line: nat,
    pub col: nat,
    pub rest: Option<Place>,
}

/// What a lexer still has to read: the whole input and the place of the next
/// character. Without a place the lexer gives no more tokens.
pub struct LexState {
    pub input: Seq<char>,
    pub place: Option<Place>,
}

/// Whether a character can begin a token.
pub open spec fn starts_token(c: char) -> bool {
    is_alphabetic(c) || is_digit(c) || is_operator(c)
}

/// Whether a character is skipped between tokens.
pub open spec fn is_blank(c: char) -> bool {
    !starts_token(c) && is_whitespace(c)
}

/// The place after a skipped character: a line feed begins a new line.
pub open spec fn after_blank(p: Place, c: char) -> Place {
    if c == '\n' {
        Place { index: p.index + 1, line: p.line + 1, col: 1 }
    } else {
        Place { index: p.index + 1, line: p.line, col: p.col + 1 }
    }
}

/// The place `count` characters further on the same line.
pub open spec fn along(p: Place, count: nat) -> Place {
    Place { index: p.index + count, line: p.line, col: p.col + count }
}

/// The place, if it is inside the input.
pub open spec fn inside(s: Seq<char>, p: Place) -> Option<Place> {
    if p.index < s.len() {
        Some(p)
    } else {
        None
    }
}

/// The place of the first character from `p` on that is not skipped, or the
/// end of the input.
pub open spec fn skip_blanks(s: Seq<char>, p: Place) -> Place
    decreases s.len() - p.index,
{
    if p.index < s.len() && is_blank(s[p.index as int]) {
        skip_blanks(s, after_blank(p, s[p.index as int]))
    } else {
        p
    }
}

/// The index after the longest run of alphanumeric characters from `i` on.
pub open spec fn word_end(s: Seq<char>, i: nat) -> nat
    decreases s.len() - i,
{
    if i < s.len() && is_alphanumeric(s[i as int]) {
        word_end(s, i + 1)
    } else {
        i
    }
}

/// The index after the longest run of decimal digits from `i` on.
pub open spec fn digits_end(s: Seq<char>, i: nat) -> nat
    decreases s.len() - i,
{
    if i < s.len() && is_digit(s[i as int]) {
        digits_end(s, i + 1)
    } else {
        i
    }
}

/// The number that a sequence of decimal digits spells.
pub open spec fn number(digits: Seq<char>) -> nat
    decreases digits.len(),
{
    if digits.len() == 0 {
        0
    } else {
        10 * number(digits.drop_last()) + digit_of(digits.last(), 10).unwrap() as nat
    }
}

/// The next token from place `p` on, or nothing where only skipped
/// characters are left.
///
/// A letter begins an identifier, which takes all the alphanumeric
/// characters that follow. A digit begins an integer, which takes all the
/// digits that follow and must fit in 32 bits. An operator is a token by
/// itself. After an error nothing more is scanned.
pub open spec fn scan(s: Seq<char>, p: Place) -> Option<Scan> {
    let q = skip_blanks(s, p);
    if q.index >= s.len() {
        None
    } else {
        let c = s[q.index as int];
        if is_alphabetic(c) {
            let end = word_end(s, q.index);
            Some(
                Scan {
                    item: Lexeme::Identifier(s.subrange(q.index as int, end as int)),
                    line: q.line,
                    col: q.col,
                    rest: inside(s, along(q, (end - q.index) as nat)),
                },
            )
        } else if is_digit(c) {
            let end = digits_end(s, q.index);
            let value = number(s.subrange(q.index as int, end as int));
            if value <= u32::MAX {
                Some(
                    Scan {
                        item: Lexeme::Integer(value as u32),
                        line: q.line,
                        col: q.col,
                        rest: inside(s, along(q, (end - q.index) as nat)),
                    },
                )
            } else {
                Some(
                    Scan {
                        item: Lexeme::Error("too large integer"@),
                        line: q.line,
                        col: q.col,
                        rest: None,
                    },
                )
            }
        } else if is_operator(c) {
            Some(
                Scan {
                    item: Lexeme::Operator(c),
                    line: q.line,
                    col: q.col,
                    rest: inside(s, along(q, 1)),
                },
            )
        } else {
            Some(
                Scan {
                    item: Lexeme::Error("unexpected character"@),
                    line: q.line,
                    col: q.col,
                    rest: None,
                },
            )
        }
    }
}

/// A run of digits ends no earlier than it begins, and inside the input.
pub proof fn lemma_digits_end(s: Seq<char>, i: nat)
    requires
        i <= s.len(),
    ensures
        i <= digits_end(s, i) <= s.len(),
        forall|j: int| i <= j < digits_end(s, i) ==> is_digit(#[trigger] s[j]),
    decreases s.len() - i,
{
    if i < s.len() && is_digit(s[i as int]) {
        lemma_digits_end(s, i + 1);
    }
}

/// A run of alphanumeric characters ends no earlier than it begins, and
/// inside the input.
pub proof fn lemma_word_end(s: Seq<char>, i: nat)
    requires
        i <= s.len(),
    ensures
        i <= word_end(s, i) <= s.len(),
    decreases s.len() - i,
{
    if i < s.len() && is_alphanumeric(s[i as int]) {
        lemma_word_end(s, i + 1);
    }
}

/// More digits spell no smaller a number.
pub proof fn lemma_number_grows(digits: Seq<char>, n: int)
    requires
        0 <= n <= digits.len(),
    ensures
        number(digits.take(n)) <= number(digits),
    decreases digits.len() - n,
{
    if n < digits.len() {
        lemma_number_grows(digits, n + 1);
        assert(digits.take(n + 1).drop_last() =~= digits.take(n));
    } else {
        assert(digits.take(n) =~= digits);
    }
}

/// Breaks a text into tokens, one per call of `next`.
pub struct Lexer<'a> {
    next: Option<(usize, char)>,
    chars: Vec<char>,
    pos: Pos,
    data: &'a str,
}

impl<'a> View for Lexer<'a> {
    type V = LexState;

    closed spec fn view(&self) -> LexState {
        LexState {
            input: self.data@,
            place: match self.next {
                Some((i, _)) => Some(
                    Place { index: i as nat, line: self.pos.line as nat, col: self.pos.col as nat },
                ),
                None => None,
            },
        }
    }
}

impl<'a> Lexer<'a> {
    /// The lexer holds the characters of its input, looks at one of them
    /// unless it is done, and has counted lines and columns that still fit.
    pub closed spec fn wf(&self) -> bool {
        &&& self.chars@ == self.data@
        &&& self.chars@.len() < u32::MAX
        &&& match self.next {
            Some((i, c)) => {
                &&& i < self.chars@.len()
                &&& self.chars@[i as int] == c
                &&& 1 <= self.pos.line <= i + 1
                &&& 1 <= self.pos.col <= i + 1
            },
            None => true,
        }
    }

    /// Creates a lexer at the beginning of the text.
    pub fn new(data: &'a str) -> (r: Self)
        requires
            data@.len() < u32::MAX,
        ensures
            r.wf(),
            r@.input == data@,
            r@.place == inside(data@, Place { index: 0, line: 1, col: 1 }),
    {
        let mut chars: Vec<char> = Vec::new();
        let mut iter = data.chars();
        loop
            invariant
                chars@ + iter.remaining() == data@,
                iter.decrease() is Some,
            ensures
                iter.remaining().len() == 0,
            decreases iter.decrease()->0,
        {
            match iter.next() {
                Some(c) => {
                    chars.push(c);
                },
                None => {
                    break;
                },
            }
        }
        let next = if chars.len() > 0 {
            Some((0usize, chars[0]))
        } else {
            None
        };
        return Lexer { next: next, chars: chars, pos: Pos { line: 1, col: 1 }, data: data };
    }

    /// Moves the look-ahead to the character after the one at `i`.
    fn advance(&mut self, i: usize)
        requires
            i < old(self).chars@.len(),
        ensures
            final(self).chars == old(self).chars,
            final(self).pos == old(self).pos,
            final(self).data == old(self).data,
            final(self).next == if i + 1 < old(self).chars@.len() {
                Some(((i + 1) as usize, old(self).chars@[i + 1]))
            } else {
                None::<(usize, char)>
            },
    {
        let len = self.chars.len();
        if i + 1 < len {
            self.next = Some((i + 1, self.chars[i + 1]));
        } else {
            self.next = None;
        }
    }

    fn eat_whitespace(&mut self, c: char)
        requires
            old(self).wf(),
            old(self)@.place is Some,
            c == old(self)@.input[old(self)@.place.unwrap().index as int],
        ensures
            final(self).wf(),
            final(self)@.input == old(self)@.input,
            final(self)@.place == inside(
                old(self)@.input,
                after_blank(old(self)@.place.unwrap(), c),
            ),
    {
        let i = self.next.unwrap().0;
        if c == '\n' {
            self.pos.line += 1;
            self.pos.col = 1;
        } else {
            self.pos.col += 1;
        }
        self.advance(i);
    }

    fn get_error(&mut self, msg: &'static str) -> (item: Item<'a>)
        requires
            old(self).wf(),
        ensures
            final(self).wf(),
            final(self)@.input == old(self)@.input,
            final(self)@.place is None,
            item@ == Lexeme::Error(msg@),
    {
        self.next = None;
        return Item::Error(msg);
    }

    /// Appends a decimal digit to a number, unless the result leaves 32 bits.
    pub fn add_digit(n: u32, d: u32) -> (r: Option<u32>)
        ensures
            r == if 10 * n + d <= u32::MAX {
                Some((10 * n + d) as u32)
            } else {
                None
            },
    {
        return match n.checked_mul(10) {
            Some(n2) => match n2.checked_add(d) {
                Some(n3) => Some(n3),
                None => None,
            },
            None => None,
        };
    }

    fn get_integer(&mut self) -> (item: Item<'a>)
        requires
            old(self).wf(),
            old(self)@.place is Some,
        ensures
            final(self).wf(),
            final(self)@.input == old(self)@.input,
            ({
                let s = old(self)@.input;
                let p = old(self)@.place.unwrap();
                let end = digits_end(s, p.index);
                let value = number(s.subrange(p.index as int, end as int));
                if value <= u32::MAX {
                    &&& item@ == Lexeme::Integer(value as u32)
                    &&& final(self)@.place == inside(s, along(p, (end - p.index) as nat))
                } else {
                    &&& item@ == Lexeme::Error("too large integer"@)
                    &&& final(self)@.place is None
                }
            }),
    {
        let ghost s = self@.input;
        let ghost p = self@.place.unwrap();
        let ghost end = digits_end(s, p.index);
        let ghost digits = s.subrange(p.index as int, end as int);
        proof {
            lemma_digits_end(s, p.index);
        }
        let mut n: u32 = 0;
        let mut stop: bool = false;
        while !stop
            invariant
                self.wf(),
                self@.input == s,
                s == old(self)@.input,
                old(self)@.place == Some(p),
                p.index <= end <= s.len(),
                digits == s.subrange(p.index as int, end as int),
                forall|j: int| p.index <= j < end ==> is_digit(#[trigger] s[j]),
                end == digits_end(s, p.index),
                match self@.place {
                    Some(q) => {
                        &&& p.index <= q.index <= end
                        &&& q == along(p, (q.index - p.index) as nat)
                        &&& end == digits_end(s, q.index)
                        &&& n == number(digits.take(q.index - p.index))
                        &&& stop ==> q.index == end
                    },
                    None => {
                        &&& end == s.len()
                        &&& n == number(digits)
                    },
                },
            decreases
                    (match self.next {
                        Some((i, _)) => s.len() - i,
                        None => 0,
                    }) + (if stop {
                        0int
                    } else {
                        1int
                    }),
        {
            match self.next {
                None => {
                    stop = true;
                },
                Some((i, c)) => {
                    match c.to_digit(10) {
                        Some(d) => match Lexer::add_digit(n, d) {
                            Some(n2) => {
                                proof {
                                    let k = i - p.index;
                                    lemma_digits_end(s, (i + 1) as nat);
                                    assert(digits.take(k + 1).drop_last() =~= digits.take(k));
                                }
                                n = n2;
                            },
                            None => {
                                proof {
                                    let k = i - p.index;
                                    lemma_digits_end(s, (i + 1) as nat);
                                    assert(digits.take(k + 1).drop_last() =~= digits.take(k));
                                    lemma_number_grows(digits, k + 1);
                                }
                                return self.get_error("too large integer");
                            },
                        },
                        None => {
                            stop = true;
                        },
                    }
                    if !stop {
                        self.pos.col += 1;
                        self.advance(i);
                    }
                },
            }
        }
        proof {
            match self@.place {
                Some(q) => {
                    assert(digits.take(q.index - p.index) =~= digits);
                },
                None => {},
            }
        }
        return Item::Integer(n);
    }

    fn get_identifier(&mut self) -> (item: Item<'a>)
        requires
            old(self).wf(),
            old(self)@.place is Some,
        ensures
            final(self).wf(),
            final(self)@.input == old(self)@.input,
            ({
                let s = old(self)@.input;
                let p = old(self)@.place.unwrap();
                let end = word_end(s, p.index);
                &&& item@ == Lexeme::Identifier(s.subrange(p.index as int, end as int))
                &&& final(self)@.place == inside(s, along(p, (end - p.index) as nat))
            }),
    {
        let ghost s = self@.input;
        let ghost p = self@.place.unwrap();
        let ghost end = word_end(s, p.index);
        proof {
            lemma_word_end(s, p.index);
        }
        let mut name = String::new();
        let mut stop: bool = false;
        while !stop
            invariant
                self.wf(),
                self@.input == s,
                s == old(self)@.input,
                old(self)@.place == Some(p),
                p.index <= end <= s.len(),
                end == word_end(s, p.index),
                match self@.place {
                    Some(q) => {
                        &&& p.index <= q.index <= end
                        &&& q == along(p, (q.index - p.index) as nat)
                        &&& end == word_end(s, q.index)
                        &&& name@ == s.subrange(p.index as int, q.index as int)
                        &&& stop ==> q.index == end
                    },
                    None => {
                        &&& end == s.len()
                        &&& name@ == s.subrange(p.index as int, end as int)
                    },
                },
            decreases
                    (match self.next {
                        Some((i, _)) => s.len() - i,
                        None => 0,
                    }) + (if stop {
                        0int
                    } else {
                        1int
                    }),
        {
            match self.next {
                None => {
                    stop = true;
                },
                Some((i, c)) => {
                    if c.is_alphanumeric() {
                        name.push(c);
                        proof {
                            lemma_word_end(s, (i + 1) as nat);
                        }
                        self.pos.col += 1;
                        self.advance(i);
                    } else {
                        stop = true;
                    }
                },
            }
        }
        return Item::Identifier(name);
    }

    fn get_operator(&mut self) -> (item: Item<'a>)
        requires
            old(self).wf(),
            old(self)@.place is Some,
        ensures
            final(self).wf(),
            final(self)@.input == old(self)@.input,
            ({
                let s = old(self)@.input;
                let p = old(self)@.place.unwrap();
                &&& item@ == Lexeme::Operator(s[p.index as int])
                &&& final(self)@.place == inside(s, along(p, 1))
            }),
    {
        let (i, c) = self.next.unwrap();
        self.pos.col += 1;
        self.advance(i);
        return Item::Operator(c);
    }

    /// Whether the character is one of the operators.
    pub fn is_operator(c: char) -> (b: bool)
        ensures
            b == is_operator(c),
    {
        let len = OPERATORS.unicode_len();
        let mut i: usize = 0;
        while i < len
            invariant
                i <= len == OPERATORS@.len(),
                forall|j: int| 0 <= j < i ==> OPERATORS@[j] != c,
            decreases len - i,
        {
            if OPERATORS.get_char(i) == c {
                return true;
            }
            i += 1;
        }
        false
    }

    /// Gives the next token with the position of its first character, or
    /// nothing when the input holds no more tokens. After an error token
    /// the lexer gives nothing more.
    pub fn next(&mut self) -> (r: Option<(Item<'a>, Pos)>)
        requires
            old(self).wf(),
        ensures
            final(self).wf(),
            final(self)@.input == old(self)@.input,
            match old(self)@.place {
                None => r is None && final(self)@.place is None,
                Some(p) => match scan(old(self)@.input, p) {
                    None => r is None && final(self)@.place is None,
                    Some(found) => {
                        &&& r is Some
                        &&& r.unwrap().0@ == found.item
                        &&& r.unwrap().1.line == found.line
                        &&& r.unwrap().1.col == found.col
                        &&& final(self)@.place == found.rest
                    },
                },
            },
    {
        let ghost s = self@.input;
        loop
            invariant
                self.wf(),
                self@.input == s,
                s == old(self)@.input,
                match old(self)@.place {
                    None => self@.place is None,
                    Some(p) => match self@.place {
                        None => skip_blanks(s, p).index >= s.len(),
                        Some(q) => skip_blanks(s, p) == skip_blanks(s, q),
                    },
                },
            decreases
                    match self.next {
                        Some((i, _)) => s.len() - i,
                        None => 0,
                    },
        {
            match self.next {
                None => {
                    return None;
                },
                Some((_, c)) => {
                    let p = self.pos;
                    if c.is_alphabetic() {
                        return Some((self.get_identifier(), p));
                    } else if c.is_digit(10) {
                        return Some((self.get_integer(), p));
                    } else if Lexer::is_operator(c) {
                        return Some((self.get_operator(), p));
                    } else if c.is_whitespace() {
                        let ghost q = self@.place.unwrap();
                        self.eat_whitespace(c);
                        proof {
                            let after = after_blank(q, c);
                            assert(skip_blanks(s, q) == skip_blanks(s, after));
                        }
                    } else {
                        return Some((self.get_error("unexpected character"), p));
                    }
                },
            }
        }
    }
}

} // verus!
