use vstd::prelude::*;
use vstd::string::StrSliceExecFns;
use vstd::string::StringExecFns;

verus! {

/// Symbols shown on each side of an error position.
pub const CONTEXT_WIDTH: usize = 10;

/// The eight symbols that carry meaning.
pub open spec fn is_command(c: char) -> bool {
    c == '>' || c == '<' || c == '+' || c == '-' || c == '.' || c == ',' || c == '[' || c == ']'
}

/// The command symbols among the first `k` characters of `s`, in order.
pub open spec fn commands_of(s: Seq<char>, k: int) -> Seq<char>
    decreases k,
{
    if k <= 0 {
        Seq::empty()
    } else if is_command(s[k - 1]) {
        commands_of(s, k - 1).push(s[k - 1])
    } else {
        commands_of(s, k - 1)
    }
}

/// Relies on std's `String::push`: appends one character.
#[verifier::external_body]
fn push_char(s: &mut String, c: char)
    ensures
        final(s)@ == old(s)@.push(c),
{
    s.push(c);
}

/// Keeps the command symbols of `input`, in order, and drops every other character.
pub fn sanitize_input(input: &String) -> (r: String)
    ensures
        r@ == commands_of(input@, input@.len() as int),
{
    let mut sanitized: String = String::new();
    let s = input.as_str();
    let n = s.unicode_len();
    let mut i: usize = 0;
    while i < n
        invariant
            n == input@.len(),
            i <= n,
            s@ == input@,
            sanitized@ == commands_of(input@, i as int),
        decreases n - i,
    {
        let c = s.get_char(i);
        if c == '>' || c == '<' || c == '+' || c == '-' || c == '.' || c == ',' || c == '['
            || c == ']' {
            push_char(&mut sanitized, c);
        }
        i += 1;
    }
    sanitized
}

/// The `b` symbols of `s` that follow its first `a` symbols.
pub fn truncate_string(s: &String, a: usize, b: usize) -> (r: String)
    requires
        a <= s@.len(),
        b <= s@.len() - a,
    ensures
        r@ == s@.subrange(a as int, a + b),
{
    let _len = s.as_str().unicode_len();
    String::from_str(s.as_str().substring_char(a, a + b))
}

/// The part of `source_code` around `index`, at most `CONTEXT_WIDTH` symbols on
/// each side, and the column of `index` within it.
pub fn error_excerpt(source_code: &String, index: usize) -> (r: (String, usize))
    requires
        index < source_code@.len(),
    ensures
        ({
            let start = if index >= CONTEXT_WIDTH { index - CONTEXT_WIDTH } else { 0 };
            let end = if source_code@.len() - index > CONTEXT_WIDTH {
                index + CONTEXT_WIDTH + 1
            } else {
                source_code@.len() as int
            };
            &&& r.0@ == source_code@.subrange(start, end)
            &&& r.1 == index - start
        }),
{
    let n = source_code.as_str().unicode_len();
    let start = if index >= CONTEXT_WIDTH { index - CONTEXT_WIDTH } else { 0 };
    let end = if n - index > CONTEXT_WIDTH { index + CONTEXT_WIDTH + 1 } else { n };
    (truncate_string(source_code, start, end - start), index - start)
}

} // verus!
