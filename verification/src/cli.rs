//! Command-line options of the demo: `--players N`.

use vstd::prelude::*;

verus! {

/// Player count when no `--players` option is given.
pub const DEFAULT_PLAYERS: usize = 2;

/// The value of a decimal digit string (most significant digit first).
pub open spec fn decimal_value(s: Seq<char>) -> int
    decreases s.len(),
{
    if s.len() == 0 {
        0
    } else {
        decimal_value(s.drop_last()) * 10 + (s.last() as int - '0' as int)
    }
}

/// Every character is an ASCII decimal digit.
pub open spec fn all_digits(s: Seq<char>) -> bool {
    forall|i: int| 0 <= i < s.len() ==> '0' <= #[trigger] s[i] <= '9'
}

/// What `usize::from_str` accepts: an optional `+` followed by one or more
/// decimal digits whose value fits a `usize`.
pub open spec fn parse_usize_spec(s: Seq<char>) -> Option<usize> {
    let digits = if s.len() > 0 && s[0] == '+' { s.drop_first() } else { s };
    if digits.len() > 0 && all_digits(digits) && decimal_value(digits) <= usize::MAX {
        Some(decimal_value(digits) as usize)
    } else {
        None
    }
}

/// `str::parse::<usize>` (std's `FromStr for usize`): per its documentation,
/// an optional `+` sign followed by only digits, no other characters, and a
/// value in range.
#[verifier::external_body]
fn parse_usize(s: &str) -> (r: Option<usize>)
    ensures
        r == parse_usize_spec(s@),
{
    s.parse::<usize>().ok()
}

/// Why `--players` could not be read.
#[derive(Clone, Copy, PartialEq, Eq, Structural, Debug)]
pub enum PlayersArgError {
    /// `--players` was the last argument.
    MissingValue,
    /// The value is not a non-negative integer in range.
    NotANumber,
    /// The value is zero.
    Zero,
}

/// The text of the option.
pub open spec fn players_flag() -> Seq<char> {
    seq!['-', '-', 'p', 'l', 'a', 'y', 'e', 'r', 's']
}

/// The index of the first `--players` at or after `k`, if any.
pub open spec fn first_flag(args: Seq<Seq<char>>, k: int) -> Option<int>
    decreases args.len() - k,
{
    if k < 0 || k >= args.len() {
        None
    } else if args[k] == players_flag() {
        Some(k)
    } else {
        first_flag(args, k + 1)
    }
}

/// The player count the arguments ask for: the value after the first
/// `--players`, which must be a positive integer; two without the option.
pub open spec fn players_from_args(args: Seq<Seq<char>>) -> Result<usize, PlayersArgError> {
    match first_flag(args, 0) {
        None => Ok(DEFAULT_PLAYERS),
        Some(i) => if i + 1 >= args.len() {
            Err(PlayersArgError::MissingValue)
        } else {
            match parse_usize_spec(args[i + 1]) {
                None => Err(PlayersArgError::NotANumber),
                Some(n) => if n == 0 {
                    Err(PlayersArgError::Zero)
                } else {
                    Ok(n)
                },
            }
        },
    }
}

/// Where the first `--players` stands at `i`, the search from any earlier
/// index finds it.
proof fn lemma_first_flag_at(args: Seq<Seq<char>>, k: int, i: int)
    requires
        0 <= k <= i < args.len(),
        args[i] == players_flag(),
        forall|j: int| 0 <= j < i ==> args[j] != players_flag(),
    ensures
        first_flag(args, k) == Some(i),
    decreases i - k,
{
    if k < i {
        lemma_first_flag_at(args, k + 1, i);
    }
}

/// Without any `--players` the search finds nothing.
proof fn lemma_first_flag_none(args: Seq<Seq<char>>, k: int)
    requires
        0 <= k,
        forall|j: int| 0 <= j < args.len() ==> args[j] != players_flag(),
    ensures
        first_flag(args, k) is None,
    decreases args.len() - k,
{
    if k < args.len() {
        lemma_first_flag_none(args, k + 1);
    }
}

/// The player count is read from the first `--players`: any positive number
/// after it is the count, one included; zero after it is refused as zero; a
/// value that is no number is refused as such; nothing after it is a missing
/// value; and with no `--players` at all the count is two. A count given is
/// never below one.
pub proof fn lemma_players_arg(args: Seq<Seq<char>>, i: int)
    requires
        0 <= i < args.len(),
        args[i] == players_flag(),
        forall|j: int| 0 <= j < i ==> args[j] != players_flag(),
    ensures
        i + 1 == args.len() ==> players_from_args(args) == Err::<usize, PlayersArgError>(
            PlayersArgError::MissingValue,
        ),
        i + 1 < args.len() ==> match parse_usize_spec(args[i + 1]) {
            None => players_from_args(args) == Err::<usize, PlayersArgError>(
                PlayersArgError::NotANumber,
            ),
            Some(n) => if n >= 1 {
                players_from_args(args) == Ok::<usize, PlayersArgError>(n)
            } else {
                players_from_args(args) == Err::<usize, PlayersArgError>(PlayersArgError::Zero)
            },
        },
{
    lemma_first_flag_at(args, 0, i);
}

/// With no `--players` among the arguments the count is two, and whatever
/// the arguments, a count that is read is at least one.
pub proof fn lemma_players_default_and_positive(args: Seq<Seq<char>>)
    ensures
        (forall|j: int| 0 <= j < args.len() ==> args[j] != players_flag()) ==> players_from_args(
            args,
        ) == Ok::<usize, PlayersArgError>(2),
        players_from_args(args) matches Ok(n) ==> n >= 1,
{
    if forall|j: int| 0 <= j < args.len() ==> args[j] != players_flag() {
        lemma_first_flag_none(args, 0);
    }
}

/// The text of each argument.
pub open spec fn arg_texts(args: Seq<String>) -> Seq<Seq<char>> {
    args.map_values(|a: String| a@)
}

/// Whether `a` is exactly `--players`.
fn is_players_flag(a: &String) -> (r: bool)
    ensures
        r == (a@ == players_flag()),
{
    let s = a.as_str();
    if s.unicode_len() != 9 {
        return false;
    }
    let expected = ['-', '-', 'p', 'l', 'a', 'y', 'e', 'r', 's'];
    let mut i: usize = 0;
    while i < 9
        invariant
            s@ == a@,
            s@.len() == 9,
            expected@ == players_flag(),
            i <= 9,
            forall|j: int| 0 <= j < i ==> s@[j] == players_flag()[j],
        decreases 9 - i,
    {
        if s.get_char(i) != expected[i] {
            return false;
        }
        i = i + 1;
    }
    assert(s@ =~= players_flag());
    true
}

/// Read `--players N` from the arguments after the program name, ignoring
/// anything else.
pub fn parse_players(args: &Vec<String>) -> (r: Result<usize, PlayersArgError>)
    ensures
        r == players_from_args(arg_texts(args@)),
{
    let ghost texts = arg_texts(args@);
    let mut i: usize = 0;
    while i < args.len()
        invariant
            texts == arg_texts(args@),
            texts.len() == args@.len(),
            i <= args@.len(),
            first_flag(texts, 0) == first_flag(texts, i as int),
        decreases args@.len() - i,
    {
        if is_players_flag(&args[i]) {
            assert(first_flag(texts, i as int) == Some(i as int));
            if i + 1 >= args.len() {
                return Err(PlayersArgError::MissingValue);
            }
            let parsed = parse_usize(args[i + 1].as_str());
            assert(texts[i + 1] == args@[i + 1]@);
            return match parsed {
                None => Err(PlayersArgError::NotANumber),
                Some(n) => if n == 0 {
                    Err(PlayersArgError::Zero)
                } else {
                    Ok(n)
                },
            };
        }
        assert(texts[i as int] == args@[i as int]@);
        i = i + 1;
    }
    Ok(DEFAULT_PLAYERS)
}

} // verus!
