//! Conservative literal shell argument parsing for reviewed command-prefix authority.
use crate::text::{byte_len, chars_of, str_len, string_of};
use vstd::prelude::*;
use vstd::string::StringSliceAdditionalSpecFns;

verus! {

/// Quoting state while scanning a command.
#[derive(Clone, Copy, PartialEq, Eq, Structural)]
pub enum Quote {
    Plain,
    Single,
    Double,
}

/// Characters that are rejected outside quotes: expansion, globbing and control syntax.
pub open spec fn unquoted_special(c: char) -> bool {
    c == '$' || c == '`' || c == '!' || c == '\n' || c == '\r' || c == '*' || c == '?' || c == '['
        || c == '{' || c == '}' || c == ';' || c == '|' || c == '&' || c == '<' || c == '>' || c
        == '(' || c == ')'
}

/// Characters that are rejected inside double quotes.
pub open spec fn double_quoted_special(c: char) -> bool {
    c == '$' || c == '`' || c == '!' || c == '\n' || c == '\r'
}

/// Characters after which a backslash is removed inside double quotes.
pub open spec fn double_quote_escapable(c: char) -> bool {
    c == '$' || c == '`' || c == '"' || c == '\\'
}

/// The arguments that remain once the scan reaches the end of the command.
pub open spec fn finish_scan(
    args: Seq<Seq<char>>,
    arg: Seq<char>,
    started: bool,
    quote: Quote,
) -> Option<Seq<Seq<char>>> {
    let done = if started { args.push(arg) } else { args };
    if quote != Quote::Plain {
        None
    } else if done.len() > 0 && done[0].len() > 0 {
        Some(done)
    } else {
        None
    }
}

/// Scan `s` from position `i`, with completed arguments `args`, the current argument `arg`,
/// whether a current argument has started, and the quoting state. `None` rejects the command.
pub open spec fn scan(
    s: Seq<char>,
    i: int,
    args: Seq<Seq<char>>,
    arg: Seq<char>,
    started: bool,
    quote: Quote,
) -> Option<Seq<Seq<char>>>
    decreases s.len() - i,
{
    if i < 0 || i >= s.len() {
        finish_scan(args, arg, started, quote)
    } else {
        let c = s[i];
        if c == '\0' {
            None
        } else {
            match quote {
                Quote::Single => if c == '\'' {
                    scan(s, i + 1, args, arg, started, Quote::Plain)
                } else {
                    scan(s, i + 1, args, arg.push(c), started, quote)
                },
                Quote::Double => if c == '"' {
                    scan(s, i + 1, args, arg, started, Quote::Plain)
                } else if double_quoted_special(c) {
                    None
                } else if c == '\\' {
                    if i + 1 >= s.len() {
                        None
                    } else {
                        let next = s[i + 1];
                        if next == '\n' || next == '\r' || next == '\0' {
                            None
                        } else if double_quote_escapable(next) {
                            scan(s, i + 2, args, arg.push(next), started, quote)
                        } else {
                            scan(s, i + 2, args, arg.push('\\').push(next), started, quote)
                        }
                    }
                } else {
                    scan(s, i + 1, args, arg.push(c), started, quote)
                },
                Quote::Plain => if c == '\'' {
                    scan(s, i + 1, args, arg, true, Quote::Single)
                } else if c == '"' {
                    scan(s, i + 1, args, arg, true, Quote::Double)
                } else if c == '\\' {
                    if i + 1 >= s.len() {
                        None
                    } else {
                        let next = s[i + 1];
                        if next == '\n' || next == '\r' || next == '\0' {
                            None
                        } else {
                            scan(s, i + 2, args, arg.push(next), true, quote)
                        }
                    }
                } else if c == ' ' || c == '\t' {
                    if started {
                        scan(s, i + 1, args.push(arg), Seq::empty(), false, quote)
                    } else {
                        scan(s, i + 1, args, arg, started, quote)
                    }
                } else if unquoted_special(c) {
                    None
                } else if !started && (c == '~' || c == '=' || c == '#') {
                    None
                } else {
                    scan(s, i + 1, args, arg.push(c), true, quote)
                },
            }
        }
    }
}

/// The literal arguments of a command of 1 to 16384 bytes, or `None` when it uses shell syntax.
pub open spec fn spec_literal_arguments(command: Seq<char>) -> Option<Seq<Seq<char>>> {
    if byte_len(command) == 0 || byte_len(command) > 16384 {
        None
    } else {
        scan(command, 0, Seq::empty(), Seq::empty(), false, Quote::Plain)
    }
}

/// The characters of each string.
pub open spec fn strings_view(v: Seq<String>) -> Seq<Seq<char>> {
    v.map_values(|s: String| s@)
}

/// Parse a single literal POSIX-style command, rejecting expansion, control syntax and open quotes.
/// Exact-command approvals can still cover arbitrary shell scripts after explicit full-text review.
pub fn literal_arguments(command: &str) -> (r: Option<Vec<String>>)
    ensures
        r is None <==> spec_literal_arguments(command@) is None,
        r matches Some(v) ==> spec_literal_arguments(command@) == Some(strings_view(v@)),
{
    let n = str_len(command);
    if n == 0 || n > 16384 {
        return None;
    }
    let s = chars_of(command);
    let ghost full = scan(s@, 0, Seq::empty(), Seq::empty(), false, Quote::Plain);
    let mut arguments: Vec<Vec<char>> = Vec::new();
    let mut argument: Vec<char> = Vec::new();
    let mut started = false;
    let mut quote = Quote::Plain;
    let mut i: usize = 0;
    assert(deep(arguments@) =~= Seq::<Seq<char>>::empty());
    while i < s.len()
        invariant
            s@ == command@,
            i <= s@.len(),
            full == scan(s@, 0, Seq::empty(), Seq::empty(), false, Quote::Plain),
            full == scan(s@, i as int, deep(arguments@), argument@, started, quote),
        decreases s@.len() - i,
    {
        let c = s[i];
        if c == '\0' {
            return None;
        }
        match quote {
            Quote::Single => {
                if c == '\'' {
                    quote = Quote::Plain;
                } else {
                    argument.push(c);
                }
                i = i + 1;
            },
            Quote::Double => {
                if c == '"' {
                    quote = Quote::Plain;
                    i = i + 1;
                } else if c == '$' || c == '`' || c == '!' || c == '\n' || c == '\r' {
                    return None;
                } else if c == '\\' {
                    if i + 1 >= s.len() {
                        return None;
                    }
                    let next = s[i + 1];
                    if next == '\n' || next == '\r' || next == '\0' {
                        return None;
                    }
                    // POSIX double quotes preserve backslashes before ordinary characters.
                    if !(next == '$' || next == '`' || next == '"' || next == '\\') {
                        argument.push('\\');
                    }
                    argument.push(next);
                    i = i + 2;
                } else {
                    argument.push(c);
                    i = i + 1;
                }
            },
            Quote::Plain => {
                if c == '\'' {
                    quote = Quote::Single;
                    started = true;
                    i = i + 1;
                } else if c == '"' {
                    quote = Quote::Double;
                    started = true;
                    i = i + 1;
                } else if c == '\\' {
                    if i + 1 >= s.len() {
                        return None;
                    }
                    let next = s[i + 1];
                    if next == '\n' || next == '\r' || next == '\0' {
                        return None;
                    }
                    argument.push(next);
                    started = true;
                    i = i + 2;
                } else if c == ' ' || c == '\t' {
                    if started {
                        let ghost before = deep(arguments@);
                        let ghost done_view = argument@;
                        arguments.push(argument);
                        argument = Vec::new();
                        started = false;
                        assert(deep(arguments@) =~= before.push(done_view));
                    }
                    i = i + 1;
                } else if c == '$' || c == '`' || c == '!' || c == '\n' || c == '\r' || c == '*'
                    || c == '?' || c == '[' || c == '{' || c == '}' || c == ';' || c == '|' || c
                    == '&' || c == '<' || c == '>' || c == '(' || c == ')' {
                    return None;
                } else if !started && (c == '~' || c == '=' || c == '#') {
                    return None;
                } else {
                    argument.push(c);
                    started = true;
                    i = i + 1;
                }
            },
        }
    }
    assert(full == finish_scan(deep(arguments@), argument@, started, quote));
    let ghost done_spec = if started { deep(arguments@).push(argument@) } else { deep(arguments@) };
    if quote != Quote::Plain {
        return None;
    }
    if started {
        let ghost before = deep(arguments@);
        arguments.push(argument);
        assert(deep(arguments@) =~= before.push(arguments@.last()@));
    }
    assert(deep(arguments@) == done_spec);
    if arguments.len() == 0 || arguments[0].len() == 0 {
        return None;
    }
    assert(full == Some(done_spec));
    assert(spec_literal_arguments(command@) == full);
    let mut result: Vec<String> = Vec::new();
    let mut k: usize = 0;
    while k < arguments.len()
        invariant
            k <= arguments@.len(),
            full == Some(deep(arguments@)),
            spec_literal_arguments(command@) == full,
            result@.len() == k,
            forall|j: int| 0 <= j < k ==> (#[trigger] result@[j])@ == arguments@[j]@,
        decreases arguments@.len() - k,
    {
        let text = string_of(arguments[k].as_slice());
        result.push(text);
        k = k + 1;
    }
    assert(strings_view(result@) =~= deep(arguments@));
    Some(result)
}

/// The characters of each argument under construction.
pub open spec fn deep(v: Seq<Vec<char>>) -> Seq<Seq<char>> {
    v.map_values(|a: Vec<char>| a@)
}

/// A scan that accepts gives at least one argument, the first nonempty.
proof fn lemma_scan_first(s: Seq<char>, i: int, args: Seq<Seq<char>>, arg: Seq<char>, started: bool, quote: Quote)
    ensures
        scan(s, i, args, arg, started, quote) matches Some(d) ==> d.len() > 0 && d[0].len() > 0,
    decreases s.len() - i,
{
    if 0 <= i < s.len() {
        let c = s[i];
        if c != '\0' {
            lemma_scan_first(s, i + 1, args, arg, started, Quote::Plain);
            lemma_scan_first(s, i + 1, args, arg.push(c), started, quote);
            lemma_scan_first(s, i + 1, args, arg, true, Quote::Single);
            lemma_scan_first(s, i + 1, args, arg, true, Quote::Double);
            lemma_scan_first(s, i + 1, args.push(arg), Seq::empty(), false, quote);
            lemma_scan_first(s, i + 1, args, arg, started, quote);
            lemma_scan_first(s, i + 1, args, arg.push(c), true, quote);
            if i + 1 < s.len() {
                let next = s[i + 1];
                lemma_scan_first(s, i + 2, args, arg.push(next), started, quote);
                lemma_scan_first(s, i + 2, args, arg.push('\\').push(next), started, quote);
                lemma_scan_first(s, i + 2, args, arg.push(next), true, quote);
            }
        }
    }
}

/// A NUL at or after position `i` makes the scan refuse.
proof fn lemma_scan_nul(s: Seq<char>, i: int, j: int, args: Seq<Seq<char>>, arg: Seq<char>, started: bool, quote: Quote)
    requires
        0 <= i <= j < s.len(),
        s[j] == '\0',
    ensures
        scan(s, i, args, arg, started, quote) is None,
    decreases s.len() - i,
{
    if i < j {
        let c = s[i];
        if c != '\0' {
            lemma_scan_nul(s, i + 1, j, args, arg, started, Quote::Plain);
            lemma_scan_nul(s, i + 1, j, args, arg.push(c), started, quote);
            lemma_scan_nul(s, i + 1, j, args, arg, true, Quote::Single);
            lemma_scan_nul(s, i + 1, j, args, arg, true, Quote::Double);
            lemma_scan_nul(s, i + 1, j, args.push(arg), Seq::empty(), false, quote);
            lemma_scan_nul(s, i + 1, j, args, arg, started, quote);
            lemma_scan_nul(s, i + 1, j, args, arg.push(c), true, quote);
            if i + 1 < j {
                let next = s[i + 1];
                lemma_scan_nul(s, i + 2, j, args, arg.push(next), started, quote);
                lemma_scan_nul(s, i + 2, j, args, arg.push('\\').push(next), started, quote);
                lemma_scan_nul(s, i + 2, j, args, arg.push(next), true, quote);
            }
        }
    }
}

/// Empty, oversized or NUL-bearing commands are refused, and an accepted command has at least
/// one argument, the first nonempty.
pub proof fn law_literal_arguments_refusals(command: Seq<char>)
    ensures
        byte_len(command) == 0 || byte_len(command) > 16384 || command.contains('\0')
            ==> spec_literal_arguments(command) is None,
        spec_literal_arguments(command) matches Some(args) ==> args.len() > 0 && args[0].len() > 0,
{
    lemma_scan_first(command, 0, Seq::empty(), Seq::empty(), false, Quote::Plain);
    if command.contains('\0') && !(byte_len(command) == 0 || byte_len(command) > 16384) {
        let j = choose|j: int| 0 <= j < command.len() && command[j] == '\0';
        lemma_scan_nul(command, 0, j, Seq::empty(), Seq::empty(), false, Quote::Plain);
    }
}

/// A character of a plain word: an ASCII letter or digit, or one of `/._,:@%+-`.
pub open spec fn plain_char(c: char) -> bool {
    ('a' <= c && c <= 'z') || ('A' <= c && c <= 'Z') || ('0' <= c && c <= '9') || c == '/' || c == '.'
        || c == '_' || c == ',' || c == ':' || c == '@' || c == '%' || c == '+' || c == '-'
}

/// Nonempty plain words joined by single spaces, without leading or trailing space.
pub open spec fn plain_words(s: Seq<char>) -> bool {
    &&& s.len() > 0
    &&& s[0] != ' '
    &&& s.last() != ' '
    &&& forall|i: int| 0 <= i < s.len() ==> (plain_char(#[trigger] s[i]) || s[i] == ' ')
    &&& forall|i: int| 0 < i < s.len() && #[trigger] s[i] == ' ' ==> s[i - 1] != ' '
}

/// The words of `s[i..]` split on spaces, after the completed words `args` and the current
/// word `arg`.
pub open spec fn words_from(s: Seq<char>, i: int, args: Seq<Seq<char>>, arg: Seq<char>) -> Seq<Seq<char>>
    decreases s.len() - i,
{
    if i < 0 || i >= s.len() {
        if arg.len() > 0 {
            args.push(arg)
        } else {
            args
        }
    } else if s[i] == ' ' {
        words_from(s, i + 1, args.push(arg), Seq::empty())
    } else {
        words_from(s, i + 1, args, arg.push(s[i]))
    }
}

/// The words of `s`, split on spaces.
pub open spec fn split_words(s: Seq<char>) -> Seq<Seq<char>> {
    words_from(s, 0, Seq::empty(), Seq::empty())
}

/// Scanning plain words gives the words split on spaces.
proof fn lemma_plain_scan(s: Seq<char>, i: int, args: Seq<Seq<char>>, arg: Seq<char>)
    requires
        plain_words(s),
        0 <= i <= s.len(),
        arg.len() == 0 ==> (i == 0 || s[i - 1] == ' '),
        args.len() > 0 ==> args[0].len() > 0,
        args.len() == 0 && i > 0 ==> arg.len() > 0,
    ensures
        scan(s, i, args, arg, arg.len() > 0, Quote::Plain) == Some(words_from(s, i, args, arg)),
    decreases s.len() - i,
{
    if i < s.len() {
        let c = s[i];
        assert(plain_char(c) || c == ' ');
        if c == ' ' {
            if i > 0 {
                assert(s[i - 1] != ' ');
            }
            assert(arg.len() > 0);
            lemma_plain_scan(s, i + 1, args.push(arg), Seq::empty());
        } else {
            lemma_plain_scan(s, i + 1, args, arg.push(c));
        }
    } else {
        assert(s[s.len() - 1] != ' ');
        assert(arg.len() > 0);
    }
}

/// Plain words joined by single spaces read as those words: a command of at most 16384 bytes
/// made of nonempty words of letters, digits and `/._,:@%+-`, separated by single spaces, has
/// exactly its space-separated words as its literal arguments.
pub proof fn law_plain_words_split(command: Seq<char>)
    requires
        plain_words(command),
        crate::text::utf8_len(command) <= 16384,
    ensures
        spec_literal_arguments(command) == Some(split_words(command)),
{
    crate::text::lemma_utf8_len_bound(command);
    assert(byte_len(command) == crate::text::utf8_len(command));
    lemma_plain_scan(command, 0, Seq::empty(), Seq::empty());
}

} // verus!
