//! The interactive command vocabulary: whitespace-split tokens parsed into
//! one of the session commands, with unknown or malformed input rejected
//! as `BadCommand`.
use crate::error::{BetrayalError, BetrayalResult};
use crate::memory::ReadFromBytes;
use crate::numtext::{parse_dec, parse_u32, parse_u64, parse_usize, str_eq};
use crate::process::Filter;
use crate::results::Writer;
use vstd::prelude::*;
use vstd::string::*;

verus! {

/// One instruction from the interactive prompt.
#[derive(Debug, PartialEq, Eq)]
pub enum Command<T: ReadFromBytes> {
    PerformFilter(Filter<T>),
    KeepWriting(Writer<T>),
    Write(Writer<T>),
    Quit,
    Refresh,
    Help,
    AddAddress(usize),
    AddAddressRange(usize, usize),
    FindValuesInBox(usize, usize, Vec<T>),
    PointerMapU32(u32, u32),
    PointerMapU64(u64, u64),
}

/// The characters the tokenizer treats as blanks.
pub open spec fn blank(c: char) -> bool {
    c as int == 32 || c as int == 9 || c as int == 10 || c as int == 13
}

/// The first position at or after `i` that ends a token: a blank, or the
/// end of the text.
pub open spec fn token_end(s: Seq<char>, i: int) -> int
    decreases s.len() - i,
{
    if i < 0 || i >= s.len() || blank(s[i]) {
        i
    } else {
        token_end(s, i + 1)
    }
}

pub proof fn lemma_token_end(s: Seq<char>, i: int)
    requires
        0 <= i <= s.len(),
    ensures
        i <= token_end(s, i) <= s.len(),
        i < s.len() && !blank(s[i]) ==> token_end(s, i) > i,
    decreases s.len() - i,
{
    if i < s.len() && !blank(s[i]) {
        lemma_token_end(s, i + 1);
    }
}

/// The whitespace-split tokens of `s[i..]`.
pub open spec fn tokens_from(s: Seq<char>, i: int) -> Seq<Seq<char>>
    decreases s.len() - i, s.len() - i + 1,
    when 0 <= i <= s.len()
    via tokens_from_decreases
{
    if i >= s.len() {
        Seq::empty()
    } else if blank(s[i]) {
        tokens_from(s, i + 1)
    } else {
        seq![s.subrange(i, token_end(s, i))] + tokens_from(s, token_end(s, i))
    }
}

#[via_fn]
proof fn tokens_from_decreases(s: Seq<char>, i: int) {
    if 0 <= i <= s.len() && i < s.len() && !blank(s[i]) {
        lemma_token_end(s, i);
    }
}

/// The whitespace-split tokens of the whole line.
pub open spec fn tokens_of(s: Seq<char>) -> Seq<Seq<char>> {
    tokens_from(s, 0)
}

/// The character sequences of a list of owned tokens.
pub open spec fn views_of(tokens: Seq<String>) -> Seq<Seq<char>> {
    tokens.map_values(|t: String| t@)
}

/// Split a line on runs of blanks.
pub fn tokenize(s: &str) -> (r: Vec<String>)
    ensures
        views_of(r@) == tokens_of(s@),
{
    let n = s.unicode_len();
    let mut out: Vec<String> = Vec::new();
    let mut i: usize = 0;
    while i < n
        invariant
            0 <= i <= n,
            n == s@.len(),
            out@.map_values(|t: String| t@) + tokens_from(s@, i as int) == tokens_from(s@, 0),
        decreases n - i,
    {
        let c = s.get_char(i);
        let code = c as u32;
        if code == 32 || code == 9 || code == 10 || code == 13 {
            proof {
                assert(blank(s@[i as int]));
                assert(tokens_from(s@, i as int) == tokens_from(s@, i + 1 as int));
            }
            i = i + 1;
        } else {
            proof {
                assert(!blank(s@[i as int]));
                lemma_token_end(s@, i as int);
            }
            let start = i;
            let mut j = i;
            loop
                invariant
                    i <= j <= n,
                    n == s@.len(),
                    token_end(s@, i as int) == token_end(s@, j as int),
                    forall|k: int| i <= k < j ==> !blank(s@[k]),
                ensures
                    i <= j <= n,
                    j as int == token_end(s@, i as int),
                decreases n - j,
            {
                if j == n {
                    proof {
                        assert(token_end(s@, j as int) == j as int);
                    }
                    break ;
                }
                let cj = s.get_char(j) as u32;
                if cj == 32 || cj == 9 || cj == 10 || cj == 13 {
                    proof {
                        assert(blank(s@[j as int]));
                        assert(token_end(s@, j as int) == j as int);
                    }
                    break ;
                }
                proof {
                    assert(!blank(s@[j as int]));
                    assert(token_end(s@, j as int) == token_end(s@, j + 1 as int));
                }
                j = j + 1;
            }
            let token = s.substring_char(start, j);
            let ghost pre = out@.map_values(|t: String| t@);
            out.push(token.to_owned());
            proof {
                assert(out@.map_values(|t: String| t@) =~= pre.push(s@.subrange(i as int, j as int)));
                assert(tokens_from(s@, i as int) == seq![s@.subrange(i as int, j as int)]
                    + tokens_from(s@, j as int));
                assert(out@.map_values(|t: String| t@) + tokens_from(s@, j as int) =~= pre
                    + tokens_from(s@, i as int));
            }
            i = j;
        }
    }
    proof {
        assert(tokens_from(s@, n as int) =~= Seq::<Seq<char>>::empty());
        assert(out@.map_values(|t: String| t@) =~= out@.map_values(|t: String| t@) + tokens_from(
            s@,
            n as int,
        ));
    }
    out
}

/// A token that denotes a machine-word address.
pub open spec fn usize_tok(t: Seq<char>) -> bool {
    match parse_dec(t) {
        Some(n) => 0 <= n <= usize::MAX as int,
        None => false,
    }
}

/// A token that denotes a 32-bit unsigned value.
pub open spec fn u32_tok(t: Seq<char>) -> bool {
    match parse_dec(t) {
        Some(n) => 0 <= n <= u32::MAX as int,
        None => false,
    }
}

/// A token that denotes a 64-bit unsigned value.
pub open spec fn u64_tok(t: Seq<char>) -> bool {
    match parse_dec(t) {
        Some(n) => 0 <= n <= u64::MAX as int,
        None => false,
    }
}

/// A token that denotes a value of the session's scalar kind.
pub open spec fn val_tok<T: ReadFromBytes>(t: Seq<char>) -> bool {
    match parse_dec(t) {
        Some(n) => T::min_val() <= n <= T::max_val(),
        None => false,
    }
}

/// Which token lists mean which command: the whole vocabulary of the
/// prompt.
pub open spec fn command_matches<T: ReadFromBytes>(toks: Seq<Seq<char>>, cmd: Command<T>) -> bool {
    match cmd {
        Command::Refresh => toks.len() == 0,
        Command::Help => toks.len() == 1 && (toks[0] == "h"@ || toks[0] == "?"@ || toks[0]
            == "help"@),
        Command::Quit => toks.len() == 1 && toks[0] == "q"@,
        Command::Write(w) => toks.len() == 3 && toks[0] == "w"@ && parse_dec(toks[1]) == Some(
            w.0 as int,
        ) && parse_dec(toks[2]) == Some(w.1.as_int()),
        Command::KeepWriting(w) => toks.len() == 3 && toks[0] == "k"@ && parse_dec(toks[1])
            == Some(w.0 as int) && parse_dec(toks[2]) == Some(w.1.as_int()),
        Command::AddAddress(a) => toks.len() == 2 && toks[0] == "a"@ && parse_dec(toks[1]) == Some(
            a as int,
        ),
        Command::AddAddressRange(s, e) => toks.len() == 3 && toks[0] == "a"@ && parse_dec(toks[1])
            == Some(s as int) && parse_dec(toks[2]) == Some(e as int),
        Command::PerformFilter(f) => match f {
            Filter::Any => toks.len() == 2 && toks[0] == "f"@ && toks[1] == "u"@,
            Filter::IsEqual(v) => toks.len() == 3 && toks[0] == "f"@ && toks[1] == "e"@
                && parse_dec(toks[2]) == Some(v.as_int()),
            Filter::ChangedBy(v) => toks.len() == 3 && toks[0] == "f"@ && toks[1] == "c"@
                && parse_dec(toks[2]) == Some(v.as_int()),
            Filter::InRange(range) => toks.len() == 4 && toks[0] == "f"@ && toks[1] == "r"@
                && parse_dec(toks[2]) == Some(range.0.as_int()) && parse_dec(toks[3]) == Some(
                range.1.as_int(),
            ),
            _ => false,
        },
        Command::FindValuesInBox(s, e, vals) => toks.len() >= 3 && toks[0] == "b"@ && parse_dec(
            toks[1],
        ) == Some(s as int) && parse_dec(toks[2]) == Some(e as int) && vals@.len() == toks.len()
            - 3 && forall|j: int|
            0 <= j < vals@.len() ==> parse_dec(toks[3 + j]) == Some(
                (#[trigger] vals@[j]).as_int(),
            ),
        Command::PointerMapU32(a, d) => toks.len() == 5 && toks[0] == "p"@ && toks[1] == "m"@
            && toks[2] == "u32"@ && parse_dec(toks[3]) == Some(a as int) && parse_dec(toks[4])
            == Some(d as int),
        Command::PointerMapU64(a, d) => toks.len() == 5 && toks[0] == "p"@ && toks[1] == "m"@
            && toks[2] == "u64"@ && parse_dec(toks[3]) == Some(a as int) && parse_dec(toks[4])
            == Some(d as int),
    }
}

/// Parse a token list into a command.  A parsed command always means what
/// its tokens say; the fixed-word commands are recognized exactly, and a
/// well-formed valued command is never refused.
pub fn parse_tokens<T: ReadFromBytes>(tokens: &Vec<String>) -> (r: BetrayalResult<Command<T>>)
    ensures
        match r {
            Ok(cmd) => command_matches::<T>(views_of(tokens@), cmd),
            Err(e) => e is BadCommand,
        },
        views_of(tokens@).len() == 0 ==> r == Ok::<Command<T>, BetrayalError>(Command::Refresh),
        (views_of(tokens@).len() == 1 && views_of(tokens@)[0] == "q"@) ==> r == Ok::<
            Command<T>,
            BetrayalError,
        >(Command::Quit),
        (views_of(tokens@).len() == 1 && (views_of(tokens@)[0] == "h"@ || views_of(tokens@)[0]
            == "?"@ || views_of(tokens@)[0] == "help"@)) ==> r == Ok::<
            Command<T>,
            BetrayalError,
        >(Command::Help),
        (views_of(tokens@).len() == 2 && views_of(tokens@)[0] == "f"@ && views_of(tokens@)[1]
            == "u"@) ==> r == Ok::<Command<T>, BetrayalError>(Command::PerformFilter(Filter::Any)),
        (views_of(tokens@).len() == 2 && views_of(tokens@)[0] == "a"@ && usize_tok(
            views_of(tokens@)[1],
        )) ==> r is Ok,
        (views_of(tokens@).len() == 3 && views_of(tokens@)[0] == "w"@ && usize_tok(
            views_of(tokens@)[1],
        ) && val_tok::<T>(views_of(tokens@)[2])) ==> r is Ok,
        (views_of(tokens@).len() == 3 && views_of(tokens@)[0] == "k"@ && usize_tok(
            views_of(tokens@)[1],
        ) && val_tok::<T>(views_of(tokens@)[2])) ==> r is Ok,
        (views_of(tokens@).len() == 3 && views_of(tokens@)[0] == "a"@ && usize_tok(
            views_of(tokens@)[1],
        ) && usize_tok(views_of(tokens@)[2])) ==> r is Ok,
        (views_of(tokens@).len() == 3 && views_of(tokens@)[0] == "f"@ && (views_of(tokens@)[1]
            == "e"@ || views_of(tokens@)[1] == "c"@) && val_tok::<T>(views_of(tokens@)[2])) ==> r
            is Ok,
        (views_of(tokens@).len() == 4 && views_of(tokens@)[0] == "f"@ && views_of(tokens@)[1]
            == "r"@ && val_tok::<T>(views_of(tokens@)[2]) && val_tok::<T>(views_of(tokens@)[3]))
            ==> r is Ok,
        (views_of(tokens@).len() == 5 && views_of(tokens@)[0] == "p"@ && views_of(tokens@)[1]
            == "m"@ && views_of(tokens@)[2] == "u32"@ && u32_tok(views_of(tokens@)[3]) && u32_tok(
            views_of(tokens@)[4],
        )) ==> r is Ok,
        (views_of(tokens@).len() == 5 && views_of(tokens@)[0] == "p"@ && views_of(tokens@)[1]
            == "m"@ && views_of(tokens@)[2] == "u64"@ && u64_tok(views_of(tokens@)[3]) && u64_tok(
            views_of(tokens@)[4],
        )) ==> r is Ok,
        (views_of(tokens@).len() >= 3 && views_of(tokens@)[0] == "b"@ && usize_tok(
            views_of(tokens@)[1],
        ) && usize_tok(views_of(tokens@)[2]) && (forall|j: int|
            3 <= j < views_of(tokens@).len() ==> val_tok::<T>(#[trigger] views_of(tokens@)[j])))
            ==> r is Ok,
{
    let ghost toks = views_of(tokens@);
    proof {
        reveal_strlit("h");
        reveal_strlit("?");
        reveal_strlit("help");
        reveal_strlit("q");
        reveal_strlit("w");
        reveal_strlit("k");
        reveal_strlit("a");
        reveal_strlit("f");
        reveal_strlit("u");
        reveal_strlit("e");
        reveal_strlit("c");
        reveal_strlit("r");
        reveal_strlit("p");
        reveal_strlit("m");
        reveal_strlit("u32");
        reveal_strlit("u64");
        reveal_strlit("b");
        assert(toks.len() == tokens@.len());
        assert(forall|k: int| 0 <= k < tokens@.len() ==> #[trigger] toks[k] == tokens@[k]@);
        assert("h"@.len() == 1 && "h"@[0] == 'h');
        assert("?"@.len() == 1 && "?"@[0] == '?');
        assert("q"@.len() == 1 && "q"@[0] == 'q');
        assert("w"@.len() == 1 && "w"@[0] == 'w');
        assert("k"@.len() == 1 && "k"@[0] == 'k');
        assert("a"@.len() == 1 && "a"@[0] == 'a');
        assert("f"@.len() == 1 && "f"@[0] == 'f');
        assert("e"@.len() == 1 && "e"@[0] == 'e');
        assert("c"@.len() == 1 && "c"@[0] == 'c');
        assert("p"@.len() == 1 && "p"@[0] == 'p');
        assert("b"@.len() == 1 && "b"@[0] == 'b');
        assert("help"@.len() == 4);
        assert("u32"@.len() == 3 && "u32"@[1] == '3');
        assert("u64"@.len() == 3 && "u64"@[1] == '6');
        assert("h"@ != "?"@ && "h"@ != "help"@ && "h"@ != "q"@);
        assert("?"@ != "help"@ && "?"@ != "q"@ && "help"@ != "q"@);
        assert("a"@ != "f"@ && "a"@ != "b"@ && "a"@ != "w"@ && "a"@ != "k"@);
        assert("w"@ != "k"@ && "w"@ != "f"@ && "w"@ != "b"@);
        assert("k"@ != "f"@ && "k"@ != "b"@);
        assert("f"@ != "b"@ && "p"@ != "b"@);
        assert("e"@ != "c"@ && "u32"@ != "u64"@);
    }
    let n = tokens.len();
    if n == 0 {
        return Ok(Command::Refresh);
    }
    let t0 = tokens[0].as_str();
    if n == 1 {
        if str_eq(t0, "h") || str_eq(t0, "?") || str_eq(t0, "help") {
            return Ok(Command::Help);
        }
        if str_eq(t0, "q") {
            return Ok(Command::Quit);
        }
        return Err(BetrayalError::BadCommand(String::from_str("command not found")));
    }
    if n == 2 {
        if str_eq(t0, "a") {
            match parse_usize(tokens[1].as_str()) {
                Some(a) => {
                    return Ok(Command::AddAddress(a));
                },
                None => {
                    return Err(BetrayalError::BadCommand(String::from_str("invalid value")));
                },
            }
        }
        if str_eq(t0, "f") && str_eq(tokens[1].as_str(), "u") {
            return Ok(Command::PerformFilter(Filter::Any));
        }
        return Err(BetrayalError::BadCommand(String::from_str("command not found")));
    }
    if n == 3 && str_eq(t0, "w") {
        match (parse_usize(tokens[1].as_str()), T::parse_value(tokens[2].as_str())) {
            (Some(a), Some(v)) => {
                return Ok(Command::Write((a, v)));
            },
            _ => {
                return Err(BetrayalError::BadCommand(String::from_str("invalid value")));
            },
        }
    }
    if n == 3 && str_eq(t0, "k") {
        match (parse_usize(tokens[1].as_str()), T::parse_value(tokens[2].as_str())) {
            (Some(a), Some(v)) => {
                return Ok(Command::KeepWriting((a, v)));
            },
            _ => {
                return Err(BetrayalError::BadCommand(String::from_str("invalid value")));
            },
        }
    }
    if n == 3 && str_eq(t0, "a") {
        match (parse_usize(tokens[1].as_str()), parse_usize(tokens[2].as_str())) {
            (Some(s), Some(e)) => {
                return Ok(Command::AddAddressRange(s, e));
            },
            _ => {
                return Err(BetrayalError::BadCommand(String::from_str("invalid value")));
            },
        }
    }
    if n == 3 && str_eq(t0, "f") {
        let t1 = tokens[1].as_str();
        if str_eq(t1, "e") {
            match T::parse_value(tokens[2].as_str()) {
                Some(v) => {
                    return Ok(Command::PerformFilter(Filter::IsEqual(v)));
                },
                None => {
                    return Err(BetrayalError::BadCommand(String::from_str("invalid value")));
                },
            }
        }
        if str_eq(t1, "c") {
            match T::parse_value(tokens[2].as_str()) {
                Some(v) => {
                    return Ok(Command::PerformFilter(Filter::ChangedBy(v)));
                },
                None => {
                    return Err(BetrayalError::BadCommand(String::from_str("invalid value")));
                },
            }
        }
        return Err(BetrayalError::BadCommand(String::from_str("command not found")));
    }
    if n == 4 && str_eq(t0, "f") && str_eq(tokens[1].as_str(), "r") {
        match (T::parse_value(tokens[2].as_str()), T::parse_value(tokens[3].as_str())) {
            (Some(s), Some(e)) => {
                return Ok(Command::PerformFilter(Filter::InRange((s, e))));
            },
            _ => {
                return Err(BetrayalError::BadCommand(String::from_str("invalid value")));
            },
        }
    }
    if n == 5 && str_eq(t0, "p") && str_eq(tokens[1].as_str(), "m") {
        let t2 = tokens[2].as_str();
        if str_eq(t2, "u32") {
            match (parse_u32(tokens[3].as_str()), parse_u32(tokens[4].as_str())) {
                (Some(a), Some(d)) => {
                    return Ok(Command::PointerMapU32(a, d));
                },
                _ => {
                    return Err(BetrayalError::BadCommand(String::from_str("invalid value")));
                },
            }
        }
        if str_eq(t2, "u64") {
            match (parse_u64(tokens[3].as_str()), parse_u64(tokens[4].as_str())) {
                (Some(a), Some(d)) => {
                    return Ok(Command::PointerMapU64(a, d));
                },
                _ => {
                    return Err(BetrayalError::BadCommand(String::from_str("invalid value")));
                },
            }
        }
    }
    if n >= 3 && str_eq(t0, "b") {
        let start = match parse_usize(tokens[1].as_str()) {
            Some(s) => s,
            None => {
                return Err(BetrayalError::BadCommand(String::from_str("invalid value")));
            },
        };
        let end = match parse_usize(tokens[2].as_str()) {
            Some(e) => e,
            None => {
                return Err(BetrayalError::BadCommand(String::from_str("invalid value")));
            },
        };
        let mut values: Vec<T> = Vec::new();
        let mut j: usize = 3;
        while j < n
            invariant
                3 <= j <= n,
                n == tokens@.len(),
                toks == views_of(tokens@),
                forall|k: int| 0 <= k < tokens@.len() ==> #[trigger] toks[k] == tokens@[k]@,
                toks[0] == "b"@,
                !(toks[0] == "p"@),
                values@.len() == j - 3,
                forall|k: int|
                    0 <= k < values@.len() ==> parse_dec(toks[3 + k]) == Some(
                        (#[trigger] values@[k]).as_int(),
                    ),
            decreases n - j,
        {
            match T::parse_value(tokens[j].as_str()) {
                Some(v) => values.push(v),
                None => {
                    proof {
                        assert(!val_tok::<T>(toks[j as int]));
                    }
                    return Err(BetrayalError::BadCommand(String::from_str("invalid value")));
                },
            }
            j = j + 1;
        }
        return Ok(Command::FindValuesInBox(start, end, values));
    }
    Err(BetrayalError::BadCommand(String::from_str("command not found")))
}

/// Parse one line from the prompt: split it on blanks, then parse the
/// tokens.  The contract restates the token-level parser's over the
/// line's own tokens: what is accepted means what it says, and every
/// well-formed command of the vocabulary is accepted.
pub fn command_parser<T: ReadFromBytes>(i: &str) -> (r: BetrayalResult<Command<T>>)
    ensures
        match r {
            Ok(cmd) => command_matches::<T>(tokens_of(i@), cmd),
            Err(e) => e is BadCommand,
        },
        tokens_of(i@).len() == 0 ==> r == Ok::<Command<T>, BetrayalError>(Command::Refresh),
        (tokens_of(i@).len() == 1 && tokens_of(i@)[0] == "q"@) ==> r == Ok::<
            Command<T>,
            BetrayalError,
        >(Command::Quit),
        (tokens_of(i@).len() == 1 && (tokens_of(i@)[0] == "h"@ || tokens_of(i@)[0] == "?"@
            || tokens_of(i@)[0] == "help"@)) ==> r == Ok::<Command<T>, BetrayalError>(
            Command::Help,
        ),
        (tokens_of(i@).len() == 2 && tokens_of(i@)[0] == "f"@ && tokens_of(i@)[1] == "u"@) ==> r
            == Ok::<Command<T>, BetrayalError>(Command::PerformFilter(Filter::Any)),
        (tokens_of(i@).len() == 2 && tokens_of(i@)[0] == "a"@ && usize_tok(tokens_of(i@)[1])) ==> r
            is Ok,
        (tokens_of(i@).len() == 3 && tokens_of(i@)[0] == "w"@ && usize_tok(tokens_of(i@)[1])
            && val_tok::<T>(tokens_of(i@)[2])) ==> r is Ok,
        (tokens_of(i@).len() == 3 && tokens_of(i@)[0] == "k"@ && usize_tok(tokens_of(i@)[1])
            && val_tok::<T>(tokens_of(i@)[2])) ==> r is Ok,
        (tokens_of(i@).len() == 3 && tokens_of(i@)[0] == "a"@ && usize_tok(tokens_of(i@)[1])
            && usize_tok(tokens_of(i@)[2])) ==> r is Ok,
        (tokens_of(i@).len() == 3 && tokens_of(i@)[0] == "f"@ && (tokens_of(i@)[1] == "e"@
            || tokens_of(i@)[1] == "c"@) && val_tok::<T>(tokens_of(i@)[2])) ==> r is Ok,
        (tokens_of(i@).len() == 4 && tokens_of(i@)[0] == "f"@ && tokens_of(i@)[1] == "r"@
            && val_tok::<T>(tokens_of(i@)[2]) && val_tok::<T>(tokens_of(i@)[3])) ==> r is Ok,
        (tokens_of(i@).len() == 5 && tokens_of(i@)[0] == "p"@ && tokens_of(i@)[1] == "m"@
            && tokens_of(i@)[2] == "u32"@ && u32_tok(tokens_of(i@)[3]) && u32_tok(
            tokens_of(i@)[4],
        )) ==> r is Ok,
        (tokens_of(i@).len() == 5 && tokens_of(i@)[0] == "p"@ && tokens_of(i@)[1] == "m"@
            && tokens_of(i@)[2] == "u64"@ && u64_tok(tokens_of(i@)[3]) && u64_tok(
            tokens_of(i@)[4],
        )) ==> r is Ok,
        (tokens_of(i@).len() >= 3 && tokens_of(i@)[0] == "b"@ && usize_tok(tokens_of(i@)[1])
            && usize_tok(tokens_of(i@)[2]) && (forall|j: int|
            3 <= j < tokens_of(i@).len() ==> val_tok::<T>(#[trigger] tokens_of(i@)[j]))) ==> r
            is Ok,
{
    let tokens = tokenize(i);
    proof {
        assert(views_of(tokens@) == tokens_of(i@));
    }
    parse_tokens(&tokens)
}

impl<T: ReadFromBytes> core::str::FromStr for Command<T> {
    type Err = BetrayalError;

    fn from_str(s: &str) -> Result<Self, BetrayalError> {
        command_parser(s)
    }
}

} // verus!
