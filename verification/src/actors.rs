//! Small actors: one that gives back what it is told, and one that calls it.

use crate::gen_server::CastResult;
use crate::text::push_char;
use vstd::prelude::*;
use vstd::string::*;

verus! {

/// A server that gives back every request.
#[derive(Clone, Copy, PartialEq, Eq, Structural, Debug)]
pub struct Echo;

/// What makes the server stop: the word `stop`.
pub open spec fn stop_word() -> Seq<u8> {
    vstd::utf8::encode_utf8("stop"@)
}

impl Echo {
    pub fn handle_call(&mut self, req: Vec<u8>) -> (r: Vec<u8>)
        ensures
            r == req,
            *final(self) == *old(self),
    {
        req
    }

    pub fn handle_info(&mut self, data: Vec<u8>) -> (r: CastResult)
        ensures
            r == (if data@ == stop_word() {
                CastResult::Stop
            } else {
                CastResult::Continue
            }),
            *final(self) == *old(self),
    {
        let word = "stop".as_bytes();
        if data.len() != word.len() {
            return CastResult::Continue;
        }
        let mut i: usize = 0;
        while i < word.len()
            invariant
                i <= word@.len(),
                word@ == stop_word(),
                data@.len() == word@.len(),
                forall|j: int| 0 <= j < i ==> data@[j] == word@[j],
            decreases word@.len() - i,
        {
            if data[i] != word[i] {
                return CastResult::Continue;
            }
            i += 1;
        }
        assert(data@ =~= word@);
        CastResult::Stop
    }
}

/// Gives a message back.
pub fn echo(message: String) -> (r: String)
    ensures
        r == message,
{
    message
}

/// Gives a message back, its characters in reverse.
pub fn reverse(message: &str) -> (r: String)
    ensures
        r@ == message@.reverse(),
{
    let n: usize = message.unicode_len();
    let mut r = String::new();
    let mut i: usize = n;
    while i > 0
        invariant
            i <= n,
            n == message@.len(),
            r@.len() == n - i,
            forall|j: int| 0 <= j < n - i ==> r@[j] == message@[n - 1 - j],
        decreases i,
    {
        i -= 1;
        push_char(&mut r, message.get_char(i));
    }
    r
}

/// A text in quotes.
pub open spec fn in_quotes(s: Seq<char>) -> Seq<char> {
    seq!['"'] + s + seq!['"']
}

/// A text without the quotes around it, where it has them on both sides.
pub open spec fn unquoted(s: Seq<char>) -> Seq<char> {
    if s.len() >= 2 && s[0] == '"' && s.last() == '"' {
        s.subrange(1, s.len() - 1)
    } else {
        s
    }
}

/// The argument that asks the echo actor to give back a message.
pub fn echo_argument(message: &str) -> (r: String)
    ensures
        r@ == in_quotes(message@),
{
    let mut r = String::new();
    push_char(&mut r, '"');
    r.append(message);
    push_char(&mut r, '"');
    r
}

/// A text without the quotes around it, where it has them on both sides.
pub fn strip_quotes(s: &str) -> (r: String)
    ensures
        r@ == unquoted(s@),
{
    let n: usize = s.unicode_len();
    if n >= 2 && s.get_char(0) == '"' && s.get_char(n - 1) == '"' {
        s.substring_char(1, n - 1).to_owned()
    } else {
        s.to_owned()
    }
}

/// What a caller of the echo actor makes of its answer: the first result, without its quotes.
pub fn echo_answer(results: Result<Vec<String>, String>) -> (r: Result<String, String>)
    ensures
        match results {
            Err(e) => r == Err::<String, String>(e),
            Ok(v) => if v@.len() == 0 {
                r matches Err(e) && e@ == "echo returned no results"@
            } else {
                r matches Ok(s) && s@ == unquoted(v@[0]@)
            },
        },
{
    match results {
        Err(e) => Err(e),
        Ok(v) => if v.len() == 0 {
            Err("echo returned no results".to_owned())
        } else {
            Ok(strip_quotes(v[0].as_str()))
        },
    }
}

/// Quotes that were put round a text come off again.
pub proof fn law_quotes_come_off(s: Seq<char>)
    ensures
        unquoted(in_quotes(s)) == s,
{
}

/// A message that is reversed twice is as it was.
pub proof fn law_reversing_twice(s: Seq<char>)
    ensures
        s.reverse().reverse() == s,
{
}

} // verus!
