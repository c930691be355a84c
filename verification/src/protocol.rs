//! The line protocol: what a line that a client sent asks for.
//!
//! A line is a command word and at most one argument, set apart by blanks.
//! What follows the argument is ignored.

use vstd::prelude::*;

verus! {

/// The characters that set words apart: the blanks of Unicode.
pub open spec fn is_space(c: char) -> bool {
    ||| '\u{9}' <= c <= '\u{d}'
    ||| c == ' '
    ||| c == '\u{85}'
    ||| c == '\u{a0}'
    ||| c == '\u{1680}'
    ||| '\u{2000}' <= c <= '\u{200a}'
    ||| c == '\u{2028}'
    ||| c == '\u{2029}'
    ||| c == '\u{202f}'
    ||| c == '\u{205f}'
    ||| c == '\u{3000}'
}

/// The first place at or after `from` that holds no blank, or the end of
/// the line where only blanks follow.
pub open spec fn word_start(s: Seq<char>, from: int) -> int
    decreases s.len() - from,
{
    if from >= s.len() {
        s.len() as int
    } else if from < 0 || !is_space(s[from]) {
        from
    } else {
        word_start(s, from + 1)
    }
}

/// The first place at or after `from` that holds a blank, or the end of
/// the line where none follows.
pub open spec fn word_end(s: Seq<char>, from: int) -> int
    decreases s.len() - from,
{
    if from >= s.len() {
        s.len() as int
    } else if from < 0 || is_space(s[from]) {
        from
    } else {
        word_end(s, from + 1)
    }
}

/// The word that begins at or after `from`: nothing where only blanks
/// follow.
pub open spec fn word_from(s: Seq<char>, from: int) -> Seq<char> {
    s.subrange(word_start(s, from), word_end(s, word_start(s, from)))
}

/// The first word of the line.
pub open spec fn first_word(s: Seq<char>) -> Seq<char> {
    word_from(s, 0)
}

/// The second word of the line.
pub open spec fn second_word(s: Seq<char>) -> Seq<char> {
    word_from(s, word_end(s, word_start(s, 0)))
}

/// A decimal digit.
pub open spec fn is_digit(c: char) -> bool {
    '0' <= c <= '9'
}

/// The number that a run of decimal digits spells.
pub open spec fn decimal(t: Seq<char>) -> nat
    decreases t.len(),
{
    if t.len() == 0 {
        0
    } else {
        decimal(t.drop_last()) * 10 + (t.last() as int - '0' as int) as nat
    }
}

/// The word is made of decimal digits alone.
pub open spec fn all_digits(t: Seq<char>) -> bool {
    forall|i: int| 0 <= i < t.len() ==> is_digit(#[trigger] t[i])
}

/// The chips that a word names: the number it spells where it is a run of
/// decimal digits whose number fits the chip type, and nothing otherwise.
pub open spec fn amount_of(t: Seq<char>) -> u64 {
    if t.len() > 0 && all_digits(t) && decimal(t) <= u64::MAX {
        decimal(t) as u64
    } else {
        0
    }
}

/// The command words that need an argument.
#[derive(Debug, Clone, Copy, PartialEq, Eq, Structural)]
pub enum Usage {
    Register,
    CreateTable,
    JoinTable,
    Bet,
}

/// What a line asks for.
#[derive(Debug, Clone)]
pub enum Command {
    Register(String),
    CreateTable(String),
    JoinTable(String),
    ListTables,
    Show,
    Quit,
    Bet(u64),
    Call,
    Check,
    Fold,
    ShowState,
    /// A command word that needs an argument came without one.
    Incomplete(Usage),
    /// A word that is no command word.
    Unknown(String),
    /// The line holds no word.
    Empty,
}

/// What a line asks for, as a mathematical value.
pub enum CommandView {
    Register(Seq<char>),
    CreateTable(Seq<char>),
    JoinTable(Seq<char>),
    ListTables,
    Show,
    Quit,
    Bet(u64),
    Call,
    Check,
    Fold,
    ShowState,
    Incomplete(Usage),
    Unknown(Seq<char>),
    Empty,
}

impl View for Command {
    type V = CommandView;

    open spec fn view(&self) -> CommandView {
        match self {
            Command::Register(name) => CommandView::Register(name@),
            Command::CreateTable(id) => CommandView::CreateTable(id@),
            Command::JoinTable(id) => CommandView::JoinTable(id@),
            Command::ListTables => CommandView::ListTables,
            Command::Show => CommandView::Show,
            Command::Quit => CommandView::Quit,
            Command::Bet(amount) => CommandView::Bet(*amount),
            Command::Call => CommandView::Call,
            Command::Check => CommandView::Check,
            Command::Fold => CommandView::Fold,
            Command::ShowState => CommandView::ShowState,
            Command::Incomplete(usage) => CommandView::Incomplete(*usage),
            Command::Unknown(word) => CommandView::Unknown(word@),
            Command::Empty => CommandView::Empty,
        }
    }
}

/// What the line `s` asks for. The first word is the command word, in
/// capitals; `REGISTER`, `CREATE_TABLE`, `JOIN_TABLE` and `BET` take the
/// second word as their argument and are incomplete without one. A bet
/// whose argument names no amount is a bet of nothing.
pub open spec fn parse(s: Seq<char>) -> CommandView {
    let word = first_word(s);
    let argument = second_word(s);
    if word.len() == 0 {
        CommandView::Empty
    } else if word == "REGISTER"@ {
        if argument.len() == 0 {
            CommandView::Incomplete(Usage::Register)
        } else {
            CommandView::Register(argument)
        }
    } else if word == "CREATE_TABLE"@ {
        if argument.len() == 0 {
            CommandView::Incomplete(Usage::CreateTable)
        } else {
            CommandView::CreateTable(argument)
        }
    } else if word == "JOIN_TABLE"@ {
        if argument.len() == 0 {
            CommandView::Incomplete(Usage::JoinTable)
        } else {
            CommandView::JoinTable(argument)
        }
    } else if word == "LIST_TABLES"@ {
        CommandView::ListTables
    } else if word == "SHOW"@ {
        CommandView::Show
    } else if word == "QUIT"@ {
        CommandView::Quit
    } else if word == "BET"@ {
        if argument.len() == 0 {
            CommandView::Incomplete(Usage::Bet)
        } else {
            CommandView::Bet(amount_of(argument))
        }
    } else if word == "CALL"@ {
        CommandView::Call
    } else if word == "CHECK"@ {
        CommandView::Check
    } else if word == "FOLD"@ {
        CommandView::Fold
    } else if word == "SHOW_STATE"@ {
        CommandView::ShowState
    } else {
        CommandView::Unknown(word)
    }
}

/// A word begins at or after the place it is looked for from, ends at or
/// after its beginning, and holds no blank.
pub proof fn lemma_word_bounds(s: Seq<char>, from: int)
    requires
        0 <= from <= s.len(),
    ensures
        from <= word_start(s, from) <= word_end(s, word_start(s, from)) <= s.len(),
        forall|i: int| 0 <= i < word_from(s, from).len() ==> !is_space(#[trigger] word_from(s, from)[i]),
        word_from(s, from).len() == 0 <==> word_start(s, from) == s.len(),
{
    lemma_start_bounds(s, from);
    lemma_end_bounds(s, word_start(s, from));
}

/// Up to the beginning of the next word there are blanks only.
proof fn lemma_start_bounds(s: Seq<char>, from: int)
    requires
        0 <= from <= s.len(),
    ensures
        from <= word_start(s, from) <= s.len(),
        word_start(s, from) < s.len() ==> !is_space(s[word_start(s, from)]),
        forall|i: int| from <= i < word_start(s, from) ==> is_space(#[trigger] s[i]),
    decreases s.len() - from,
{
    if from < s.len() && is_space(s[from]) {
        lemma_start_bounds(s, from + 1);
    }
}

/// Up to the end of a word there are no blanks, and a blank follows it
/// unless the line ends.
proof fn lemma_end_bounds(s: Seq<char>, from: int)
    requires
        0 <= from <= s.len(),
    ensures
        from <= word_end(s, from) <= s.len(),
        word_end(s, from) < s.len() ==> is_space(s[word_end(s, from)]),
        forall|i: int| from <= i < word_end(s, from) ==> !is_space(#[trigger] s[i]),
        from < s.len() && !is_space(s[from]) ==> from < word_end(s, from),
    decreases s.len() - from,
{
    if from < s.len() && !is_space(s[from]) {
        lemma_end_bounds(s, from + 1);
    }
}

/// The digits read so far spell no more than all digits will.
proof fn lemma_decimal_grows(t: Seq<char>, n: int)
    requires
        0 <= n <= t.len(),
    ensures
        decimal(t.take(n)) <= decimal(t),
    decreases t.len() - n,
{
    if n < t.len() {
        lemma_decimal_grows(t, n + 1);
        assert(t.take(n + 1).drop_last() =~= t.take(n));
    } else {
        assert(t.take(n) =~= t);
    }
}

/// Whether the character sets words apart.
pub fn is_blank(c: char) -> (blank: bool)
    ensures
        blank == is_space(c),
{
    (c >= '\u{9}' && c <= '\u{d}') || c == ' ' || c == '\u{85}' || c == '\u{a0}' || c == '\u{1680}'
        || (c >= '\u{2000}' && c <= '\u{200a}') || c == '\u{2028}' || c == '\u{2029}' || c
        == '\u{202f}' || c == '\u{205f}' || c == '\u{3000}'
}

/// The characters of the line, one by one.
fn chars_of(line: &str) -> (chars: Vec<char>)
    ensures
        chars@ == line@,
{
    let mut chars: Vec<char> = Vec::new();
    for c in it: line.chars()
        invariant
            chars@ == it.seq().take(it.index() as int),
            it.seq() == line@,
    {
        chars.push(c);
        assert(it.seq().take(it.index() + 1) =~= it.seq().take(it.index() as int).push(c));
    }
    assert(line@.take(line@.len() as int) =~= line@);
    chars
}

/// Where the word at or after `from` begins and ends.
fn next_word(chars: &Vec<char>, from: usize) -> (bounds: (usize, usize))
    requires
        from <= chars@.len(),
    ensures
        bounds.0 == word_start(chars@, from as int),
        bounds.1 == word_end(chars@, word_start(chars@, from as int)),
        from <= bounds.0 <= bounds.1 <= chars@.len(),
{
    let n = chars.len();
    let mut a: usize = from;
    while a < n && is_blank(chars[a])
        invariant
            from <= a <= n,
            n == chars@.len(),
            word_start(chars@, from as int) == word_start(chars@, a as int),
        decreases n - a,
    {
        a += 1;
    }
    let mut b: usize = a;
    while b < n && !is_blank(chars[b])
        invariant
            a <= b <= n,
            n == chars@.len(),
            word_end(chars@, a as int) == word_end(chars@, b as int),
        decreases n - b,
    {
        b += 1;
    }
    (a, b)
}

/// The chips that the word names: its number where it is a run of
/// decimal digits whose number fits the chip type, and nothing otherwise.
pub fn parse_amount(word: &str) -> (amount: u64)
    ensures
        amount == amount_of(word@),
{
    let digits = chars_of(word);
    let n = digits.len();
    if n == 0 {
        return 0;
    }
    let mut amount: u64 = 0;
    let mut i: usize = 0;
    while i < n
        invariant
            i <= n,
            n == digits@.len(),
            digits@ == word@,
            amount == decimal(digits@.take(i as int)),
            forall|j: int| 0 <= j < i ==> is_digit(#[trigger] digits@[j]),
        decreases n - i,
    {
        let c = digits[i];
        if !(c >= '0' && c <= '9') {
            return 0;
        }
        proof {
            assert(digits@.take(i as int + 1).drop_last() =~= digits@.take(i as int));
            lemma_decimal_grows(digits@, i as int + 1);
        }
        let digit = (c as u32 - '0' as u32) as u64;
        amount = match amount.checked_mul(10) {
            Some(tens) => match tens.checked_add(digit) {
                Some(sum) => sum,
                None => {
                    return 0;
                },
            },
            None => {
                return 0;
            },
        };
        i += 1;
    }
    assert(digits@.take(n as int) =~= digits@);
    amount
}

/// What the line asks for.
pub fn parse_command(line: &str) -> (command: Command)
    ensures
        command@ == parse(line@),
{
    let chars = chars_of(line);
    let (a, b) = next_word(&chars, 0);
    let (c, d) = next_word(&chars, b);
    proof {
        lemma_word_bounds(line@, 0);
        lemma_word_bounds(line@, b as int);
    }
    if a == b {
        return Command::Empty;
    }
    let word = line.substring_char(a, b).to_string();
    let argument = line.substring_char(c, d);
    if word == "REGISTER".to_string() {
        if c == d {
            Command::Incomplete(Usage::Register)
        } else {
            Command::Register(argument.to_string())
        }
    } else if word == "CREATE_TABLE".to_string() {
        if c == d {
            Command::Incomplete(Usage::CreateTable)
        } else {
            Command::CreateTable(argument.to_string())
        }
    } else if word == "JOIN_TABLE".to_string() {
        if c == d {
            Command::Incomplete(Usage::JoinTable)
        } else {
            Command::JoinTable(argument.to_string())
        }
    } else if word == "LIST_TABLES".to_string() {
        Command::ListTables
    } else if word == "SHOW".to_string() {
        Command::Show
    } else if word == "QUIT".to_string() {
        Command::Quit
    } else if word == "BET".to_string() {
        if c == d {
            Command::Incomplete(Usage::Bet)
        } else {
            Command::Bet(parse_amount(argument))
        }
    } else if word == "CALL".to_string() {
        Command::Call
    } else if word == "CHECK".to_string() {
        Command::Check
    } else if word == "FOLD".to_string() {
        Command::Fold
    } else if word == "SHOW_STATE".to_string() {
        Command::ShowState
    } else {
        Command::Unknown(word)
    }
}

} // verus!
