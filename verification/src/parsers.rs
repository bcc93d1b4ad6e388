//! Reading the arguments of the `perft` and `go` commands.
//!
//! A command line is cut into words at white space. A number is a run of
//! decimal digits, with an optional `+` in front, whose value fits the
//! integer type asked for.

use vstd::prelude::*;

verus! {

/// Whether a character is white space (the Unicode property `White_Space`).
pub open spec fn is_space(c: char) -> bool {
    let n = c as u32;
    (0x09 <= n <= 0x0d) || n == 0x20 || n == 0x85 || n == 0xa0 || n == 0x1680 || (0x2000 <= n
        <= 0x200a) || n == 0x2028 || n == 0x2029 || n == 0x202f || n == 0x205f || n == 0x3000
}

/// Whether a character is white space.
pub fn is_whitespace(c: char) -> (space: bool)
    ensures
        space == is_space(c),
{
    let n: u32 = c as u32;
    (0x09 <= n && n <= 0x0d) || n == 0x20 || n == 0x85 || n == 0xa0 || n == 0x1680 || (0x2000 <= n
        && n <= 0x200a) || n == 0x2028 || n == 0x2029 || n == 0x202f || n == 0x205f || n == 0x3000
}

/// The words of a line: its maximal runs of characters that are not white
/// space, from left to right. A character that is not white space extends
/// the last word when the character before it belongs to a word, and begins
/// a new word otherwise.
pub open spec fn words(line: Seq<char>) -> Seq<Seq<char>>
    decreases line.len(),
{
    if line.len() == 0 {
        Seq::empty()
    } else {
        let before = words(line.drop_last());
        let c = line.last();
        if is_space(c) {
            before
        } else if line.len() >= 2 && !is_space(line[line.len() - 2]) {
            before.drop_last().push(before.last().push(c))
        } else {
            before.push(seq![c])
        }
    }
}

/// The characters of a line.
pub fn to_chars(line: &str) -> (chars: Vec<char>)
    ensures
        chars@ == line@,
{
    let mut chars: Vec<char> = Vec::new();
    for c in it: line.chars()
        invariant
            it.seq() == line@,
            chars@ == it.seq().take(it.index() as int),
    {
        chars.push(c);
    }
    chars
}

/// The contents of a list of words.
pub open spec fn views(list: Seq<Vec<char>>) -> Seq<Seq<char>> {
    Seq::new(list.len(), |i: int| list[i]@)
}

/// Cuts a line into its words.
pub fn split_chars(line: &Vec<char>) -> (list: Vec<Vec<char>>)
    ensures
        views(list@) == words(line@),
{
    let n: usize = line.len();
    let mut list: Vec<Vec<char>> = Vec::new();
    let mut word: Vec<char> = Vec::new();
    let mut i: usize = 0;
    while i < n
        invariant
            i <= n,
            n == line@.len(),
            word@.len() > 0 <==> i > 0 && !is_space(line@[i - 1]),
            words(line@.take(i as int)) == if word@.len() > 0 {
                views(list@).push(word@)
            } else {
                views(list@)
            },
        decreases n - i,
    {
        let c: char = line[i];
        assert(line@.take(i + 1).drop_last() =~= line@.take(i as int));
        if is_whitespace(c) {
            if word.len() > 0 {
                list.push(word);
                word = Vec::new();
            }
        } else {
            if word.len() == 0 {
                assert(word@.push(c) =~= seq![c]);
            }
            word.push(c);
        }
        i = i + 1;
    }
    assert(line@.take(n as int) =~= line@);
    if word.len() > 0 {
        list.push(word);
    }
    list
}

/// Cuts a line into its words.
pub fn split_words(line: &str) -> (list: Vec<Vec<char>>)
    ensures
        views(list@) == words(line@),
{
    split_chars(&to_chars(line))
}

/// The value of a decimal digit.
pub open spec fn digit_value(c: char) -> Option<nat> {
    if '0' <= c <= '9' {
        Some((c as u32 - '0' as u32) as nat)
    } else {
        None
    }
}

/// The value of a run of decimal digits; none if a character is no digit.
pub open spec fn digits_value(digits: Seq<char>) -> Option<nat>
    decreases digits.len(),
{
    if digits.len() == 0 {
        Some(0)
    } else {
        match (digits_value(digits.drop_last()), digit_value(digits.last())) {
            (Some(value), Some(digit)) => Some(10 * value + digit),
            _ => None,
        }
    }
}

/// The digits of a word: the word without a leading `+`.
pub open spec fn unsigned_part(word: Seq<char>) -> Seq<char> {
    if word.len() > 0 && word[0] == '+' {
        word.drop_first()
    } else {
        word
    }
}

/// The number that a word stands for, if it is a number no greater than
/// `max`: at least one decimal digit and nothing else, but for a `+` that
/// may stand in front.
pub open spec fn number(word: Seq<char>, max: nat) -> Option<nat> {
    let digits = unsigned_part(word);
    if digits.len() == 0 {
        None
    } else {
        match digits_value(digits) {
            Some(value) if value <= max => Some(value),
            _ => None,
        }
    }
}

/// A run of digits is worth at least as much as any run it begins with,
/// and every run it begins with is a run of digits.
proof fn lemma_digits_grow(digits: Seq<char>, k: int)
    requires
        0 <= k <= digits.len(),
        digits_value(digits) is Some,
    ensures
        digits_value(digits.take(k)) is Some,
        digits_value(digits.take(k))->0 <= digits_value(digits)->0,
    decreases digits.len(),
{
    if k == digits.len() {
        assert(digits.take(k) =~= digits);
    } else {
        lemma_digits_grow(digits.drop_last(), k);
        assert(digits.drop_last().take(k) =~= digits.take(k));
    }
}

/// A run with a character that is no digit has no value.
proof fn lemma_digits_all_or_nothing(digits: Seq<char>, k: int)
    requires
        0 <= k < digits.len(),
        digit_value(digits[k]) is None,
    ensures
        digits_value(digits) is None,
    decreases digits.len(),
{
    if k < digits.len() - 1 {
        lemma_digits_all_or_nothing(digits.drop_last(), k);
    }
}

/// Reads a word as a number no greater than `max`.
pub fn parse_number(word: &Vec<char>, max: u64) -> (parsed: Option<u64>)
    ensures
        parsed matches Some(value) ==> number(word@, max as nat) == Some(value as nat),
        parsed is None ==> number(word@, max as nat) is None,
{
    let start: usize = if word.len() > 0 && word[0] == '+' {
        1
    } else {
        0
    };
    let ghost digits = unsigned_part(word@);
    if start == word.len() {
        return None;
    }
    let mut value: u64 = 0;
    let mut i: usize = start;
    while i < word.len()
        invariant
            start <= i <= word.len(),
            digits == word@.skip(start as int),
            digits == unsigned_part(word@),
            digits.len() > 0,
            digits_value(digits.take(i - start)) == Some(value as nat),
            value <= max,
        decreases word.len() - i,
    {
        let c: char = word[i];
        let ghost k = i - start;
        assert(digits.take(k + 1).drop_last() =~= digits.take(k));
        if !('0' <= c && c <= '9') {
            proof {
                lemma_digits_all_or_nothing(digits, k);
            }
            return None;
        }
        let digit: u64 = (c as u32 - '0' as u32) as u64;
        let grown: Option<u64> = match value.checked_mul(10) {
            Some(tenfold) => tenfold.checked_add(digit),
            None => None,
        };
        match grown {
            Some(larger) if larger <= max => {
                value = larger;
            },
            _ => {
                proof {
                    if digits_value(digits) is Some {
                        lemma_digits_grow(digits, k + 1);
                    }
                }
                return None;
            },
        }
        i = i + 1;
    }
    assert(digits.take(digits.len() as int) =~= digits);
    Some(value)
}

/// Whether a word is spelled like `name`.
pub fn word_is(word: &Vec<char>, name: &str) -> (same: bool)
    ensures
        same == (word@ == name@),
{
    let letters: Vec<char> = to_chars(name);
    let n: usize = letters.len();
    if word.len() != n {
        return false;
    }
    let mut i: usize = 0;
    while i < n
        invariant
            i <= n,
            letters@ == name@,
            n == letters@.len(),
            n == word@.len(),
            forall|j: int| 0 <= j < i ==> word@[j] == letters@[j],
        decreases n - i,
    {
        if word[i] != letters[i] {
            return false;
        }
        i = i + 1;
    }
    assert(word@ =~= name@);
    true
}

/// The depth that a `perft` command asks for: 0 for an empty line; else the
/// number in the second word, or 1 if that word is no number.
pub open spec fn perft_depth(list: Seq<Seq<char>>) -> nat {
    if list.len() == 0 {
        0
    } else {
        match number(list[1], usize::MAX as nat) {
            Some(depth) => depth,
            None => 1,
        }
    }
}

/// Reads the depth of a `perft` command. A line of one word only, which
/// names no depth, is not accepted.
pub fn parse_perft_command(input: &str) -> (depth: usize)
    requires
        words(input@).len() != 1,
    ensures
        depth == perft_depth(words(input@)),
{
    let tokens: Vec<Vec<char>> = split_words(input);
    if tokens.len() == 0 {
        0
    } else {
        match parse_number(&tokens[1], usize::MAX as u64) {
            Some(depth) => depth as usize,
            None => 1,
        }
    }
}

/// The number of words of a line.
pub fn count_words(input: &str) -> (n: usize)
    ensures
        n == words(input@).len(),
{
    let tokens: Vec<Vec<char>> = split_words(input);
    tokens.len()
}

/// The value of option `name` among the first `pairs` pairs of words that
/// follow the command word. In each pair the first word is a name and the
/// second a value; a pair whose value is no number sets nothing; the last
/// pair that sets the option decides; an option that is never set is 0.
pub open spec fn option_value(list: Seq<Seq<char>>, name: Seq<char>, pairs: nat) -> nat
    decreases pairs,
{
    if pairs == 0 {
        0
    } else if 2 * pairs < list.len() && list[2 * pairs - 1] == name && number(
        list[2 * pairs as int],
        u64::MAX as nat,
    ) is Some {
        number(list[2 * pairs as int], u64::MAX as nat)->0
    } else {
        option_value(list, name, (pairs - 1) as nat)
    }
}

/// The number of complete pairs of words after the command word.
pub open spec fn pair_count(list: Seq<Seq<char>>) -> nat {
    if list.len() == 0 {
        0
    } else {
        ((list.len() - 1) / 2) as nat
    }
}

/// The value that a `go` command gives to an option.
pub open spec fn go_value(list: Seq<Seq<char>>, name: Seq<char>) -> nat {
    option_value(list, name, pair_count(list))
}

/// Reads the clock of the side to move from a `go` command: the time left
/// and the increment, in milliseconds, from `wtime` and `winc` for White and
/// from `btime` and `binc` for Black.
pub fn parse_go_command(input: &str, is_white_turn: bool) -> (clock: (u64, u64))
    ensures
        clock.0 == go_value(
            words(input@),
            if is_white_turn {
                "wtime"@
            } else {
                "btime"@
            },
        ),
        clock.1 == go_value(
            words(input@),
            if is_white_turn {
                "winc"@
            } else {
                "binc"@
            },
        ),
{
    let mut wtime: u64 = 0;
    let mut btime: u64 = 0;
    let mut winc: u64 = 0;
    let mut binc: u64 = 0;
    let tokens: Vec<Vec<char>> = split_words(input);
    let n: usize = tokens.len();
    let ghost list = words(input@);
    let mut i: usize = 1;
    let ghost mut pairs: nat = 0;
    while n >= 2 && i <= n - 2
        invariant
            n == tokens.len(),
            list == views(tokens@),
            i == 2 * pairs + 1,
            n == list.len(),
            2 * pairs + 1 <= n || pairs == 0,
            wtime == option_value(list, "wtime"@, pairs),
            btime == option_value(list, "btime"@, pairs),
            winc == option_value(list, "winc"@, pairs),
            binc == option_value(list, "binc"@, pairs),
        decreases n + 1 - i,
    {
        proof {
            pairs = pairs + 1;
        }
        if let Some(value) = parse_number(&tokens[i + 1], u64::MAX) {
            if word_is(&tokens[i], "wtime") {
                wtime = value;
            }
            if word_is(&tokens[i], "btime") {
                btime = value;
            }
            if word_is(&tokens[i], "winc") {
                winc = value;
            }
            if word_is(&tokens[i], "binc") {
                binc = value;
            }
        }
        i = i + 2;
    }
    if is_white_turn {
        (wtime, winc)
    } else {
        (btime, binc)
    }
}

} // verus!
