//! POSIX shell quoting and SSH target validation used by every generated command line.
use crate::text::{chars_of, push_char};
use vstd::prelude::*;
use vstd::string::StringExecFns;
use vstd::string::StringSliceAdditionalSpecFns;

verus! {

/// The replacement of one character inside a single-quoted shell word.
pub open spec fn quote_char(c: char) -> Seq<char> {
    if c == '\'' {
        seq!['\'', '\\', '\'', '\'']
    } else {
        seq![c]
    }
}

/// The body of a single-quoted shell word: each quote closes, escapes and reopens.
pub open spec fn quote_body(s: Seq<char>) -> Seq<char>
    decreases s.len(),
{
    if s.len() == 0 {
        Seq::empty()
    } else {
        quote_body(s.drop_last()) + quote_char(s.last())
    }
}

/// One single-quoted shell word whose value is exactly `s`.
#[verifier::opaque]
pub open spec fn spec_shell_quote(s: Seq<char>) -> Seq<char> {
    seq!['\''] + quote_body(s) + seq!['\'']
}

/// Append the single-quoted form of `value` to `out`.
pub fn push_quoted(out: &mut String, value: &str)
    ensures
        final(out)@ == old(out)@ + spec_shell_quote(value@),
{
    let chars = chars_of(value);
    let ghost start = out@;
    push_char(out, '\'');
    let mut i: usize = 0;
    while i < chars.len()
        invariant
            i <= chars@.len(),
            chars@ == value@,
            out@ == start + seq!['\''] + quote_body(chars@.take(i as int)),
        decreases chars@.len() - i,
    {
        let c = chars[i];
        if c == '\'' {
            push_char(out, '\'');
            push_char(out, '\\');
            push_char(out, '\'');
            push_char(out, '\'');
        } else {
            push_char(out, c);
        }
        assert(chars@.take(i + 1).drop_last() =~= chars@.take(i as int));
        i = i + 1;
        assert(out@ =~= start + seq!['\''] + quote_body(chars@.take(i as int)));
    }
    assert(chars@.take(chars@.len() as int) =~= chars@);
    push_char(out, '\'');
    reveal(spec_shell_quote);
    assert(out@ =~= start + spec_shell_quote(value@));
}

/// Quote `value` as one literal shell word.
pub fn shell_quote(value: &str) -> (r: String)
    ensures
        r@ == spec_shell_quote(value@),
{
    let mut out = String::new();
    push_quoted(&mut out, value);
    assert(Seq::<char>::empty() + spec_shell_quote(value@) =~= spec_shell_quote(value@));
    out
}

/// Bytes accepted in an SSH destination: letters, digits and `@ . _ - : [ ] %`.
pub open spec fn ssh_target_byte(b: u8) -> bool {
    (97u8 <= b <= 122u8) || (65u8 <= b <= 90u8) || (48u8 <= b <= 57u8) || b == 64u8 || b == 46u8
        || b == 95u8 || b == 45u8 || b == 58u8 || b == 91u8 || b == 93u8 || b == 37u8
}

/// A destination that SSH reads as a host and never as an option or shell syntax.
pub open spec fn valid_ssh_target(bytes: Seq<u8>) -> bool {
    &&& 1 <= bytes.len() <= 255
    &&& bytes[0] != 45u8
    &&& forall|i: int| 0 <= i < bytes.len() ==> ssh_target_byte(#[trigger] bytes[i])
}

/// Accept `user@host`-style destinations only; reject empty, option-like or shell-active text.
pub fn validate_ssh_target(target: &str) -> (r: Result<(), &'static str>)
    ensures
        r is Ok <==> valid_ssh_target(target.spec_bytes()),
{
    let bytes = target.as_bytes();
    if bytes.len() == 0 || bytes.len() > 255 || bytes[0] == 45u8 {
        return Err("SSH target must be 1..255 bytes and not start with '-'");
    }
    let mut i: usize = 0;
    while i < bytes.len()
        invariant
            i <= bytes@.len(),
            bytes@ == target.spec_bytes(),
            forall|j: int| 0 <= j < i ==> ssh_target_byte(#[trigger] bytes@[j]),
        decreases bytes@.len() - i,
    {
        let b = bytes[i];
        if !((97u8 <= b && b <= 122u8) || (65u8 <= b && b <= 90u8) || (48u8 <= b && b <= 57u8)
            || b == 64u8 || b == 46u8 || b == 95u8 || b == 45u8 || b == 58u8 || b == 91u8
            || b == 93u8 || b == 37u8) {
            assert(!ssh_target_byte(bytes@[i as int]));
            return Err("SSH target contains unsupported characters");
        }
        i = i + 1;
    }
    Ok(())
}

} // verus!
